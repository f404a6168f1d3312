//! The `toolchains/BUCK` append state machine.
//!
//! The Buck2 prelude ships no Node toolchain, so one is written into a file that
//! the user owns:
//!
//! * nothing outside the markers is ever modified;
//! * an existing node toolchain is never overwritten;
//! * repeated runs converge.

use vstd::prelude::*;

use crate::text::{
    after_space, ascii_alnum, chars_of, count, count_from, count_none, counted_once_is_sole, find,
    find_char, find_from, find_from_first, find_is_first, index_from, index_from_first,
    is_ascii_alnum, is_space, is_word_char, no_overlap, occurs_at, same, skip_space,
    skip_space_stops, sole_at, stands_in, text_of, word_char,
};

verus! {

pub const BEGIN: &'static str = "# --- begin pudu-managed (do not edit inside this block) ---";

pub const END: &'static str = "# --- end pudu-managed ---";

/// The name of the rule that declares a node toolchain.
pub const RULE: &'static str = "system_node_toolchain";

/// What became of `toolchains/BUCK`.
#[derive(Debug, PartialEq, Eq)]
pub enum AppendOutcome {
    /// The file did not exist; it was created containing only the block.
    Created,
    /// The block was appended after existing content.
    Appended,
    /// A current managed block is already present; nothing to do.
    AlreadyManaged,
    /// A managed block is present but its contents differ from what would be
    /// written today.
    StaleManaged,
    /// `--force` replaced the contents of an existing managed block.
    Replaced,
    /// A node toolchain the user owns was found; nothing was written. `parsed` is
    /// false when the target name could not be read out of the call and the
    /// fallback `"node"` is reported instead.
    ExistingToolchain { name: String, parsed: bool },
    /// Markers are unbalanced.
    Unparseable,
}

/// The mathematical value of an [`AppendOutcome`].
pub enum OutcomeModel {
    Created,
    Appended,
    AlreadyManaged,
    StaleManaged,
    Replaced,
    ExistingToolchain { name: Seq<char>, parsed: bool },
    Unparseable,
}

impl DeepView for AppendOutcome {
    type V = OutcomeModel;

    open spec fn deep_view(&self) -> OutcomeModel {
        match self {
            AppendOutcome::Created => OutcomeModel::Created,
            AppendOutcome::Appended => OutcomeModel::Appended,
            AppendOutcome::AlreadyManaged => OutcomeModel::AlreadyManaged,
            AppendOutcome::StaleManaged => OutcomeModel::StaleManaged,
            AppendOutcome::Replaced => OutcomeModel::Replaced,
            AppendOutcome::ExistingToolchain { name, parsed } => OutcomeModel::ExistingToolchain {
                name: name@,
                parsed: *parsed,
            },
            AppendOutcome::Unparseable => OutcomeModel::Unparseable,
        }
    }
}

// --- What a file already declares ----------------------------------------------

/// The first newline at or after `i`, or the end.
pub open spec fn line_end(s: Seq<char>, i: int) -> int
    decreases s.len() - i,
{
    if i < 0 || i >= s.len() {
        s.len() as int
    } else if s[i] == '\n' {
        i
    } else {
        line_end(s, i + 1)
    }
}

/// Where `s[lo..hi]` ends without the carriage returns behind it.
pub open spec fn trimmed_end(s: Seq<char>, lo: int, hi: int) -> int
    decreases hi - lo,
{
    if hi > lo && (s[hi - 1] == '\n' || s[hi - 1] == '\r') {
        trimmed_end(s, lo, hi - 1)
    } else {
        hi
    }
}

/// No identifier reaches from before `i` into it.
pub open spec fn at_boundary(s: Seq<char>, lo: int, i: int) -> bool {
    i <= lo || !is_word_char(s[i - 1])
}

/// The opening paren of the first call of the rule in the line that starts at
/// `lo` and ends with `line`, looked for from `from` on.
pub open spec fn call_in_line(line: Seq<char>, lo: int, from: int) -> Option<int>
    decreases line.len() - from,
{
    match find_from(line, RULE@, from) {
        None => None,
        Some(i) => if i < from || RULE@.len() == 0 || i + RULE@.len() > line.len() {
            None
        } else {
            let p = skip_space(line, i + RULE@.len());
            if at_boundary(line, lo, i) && p < line.len() && line[p] == '(' {
                Some(p)
            } else {
                call_in_line(line, lo, i + RULE@.len())
            }
        },
    }
}

/// The opening paren of the first call of the rule from the line at `lo` on,
/// commented lines left out.
pub open spec fn first_call(s: Seq<char>, lo: int) -> Option<int>
    decreases s.len() + 1 - lo,
{
    if lo < 0 || lo >= s.len() || line_end(s, lo) < lo || line_end(s, lo) > s.len() {
        None
    } else {
        let line = s.take(trimmed_end(s, lo, line_end(s, lo)));
        let first = skip_space(line, lo);
        let call = if first < line.len() && line[first] == '#' {
            None
        } else {
            call_in_line(line, lo, lo)
        };
        if call is Some {
            call
        } else {
            first_call(s, line_end(s, lo) + 1)
        }
    }
}

/// The text between quotes that starts at `v`, if it is not empty.
pub open spec fn quoted_at(args: Seq<char>, v: int) -> Option<Seq<char>> {
    if 0 <= v < args.len() && (args[v] == '"' || args[v] == '\'') {
        let end = index_from(args, args[v], v + 1);
        if v + 1 < end < args.len() {
            Some(args.subrange(v + 1, end))
        } else {
            None
        }
    } else {
        None
    }
}

/// The text in the first `name = "..."` argument from `from` on.
pub open spec fn name_argument(args: Seq<char>, from: int) -> Option<Seq<char>>
    decreases args.len() - from,
{
    match find_from(args, "name"@, from) {
        None => None,
        Some(i) => if i < from || "name"@.len() == 0 || i + "name"@.len() > args.len() {
            None
        } else {
            let p = skip_space(args, i + "name"@.len());
            if at_boundary(args, from, i) && p < args.len() && args[p] == '=' {
                quoted_at(args, skip_space(args, p + 1))
            } else {
                name_argument(args, i + "name"@.len())
            }
        },
    }
}

/// A target name that needs no quoting anywhere.
pub open spec fn is_target_name(s: Seq<char>) -> bool {
    &&& s.len() > 0
    &&& s != "."@
    &&& s != ".."@
    &&& forall|i: int|
        0 <= i < s.len() ==> is_ascii_alnum(#[trigger] s[i]) || s[i] == '_' || s[i] == '-' || s[i]
            == '.' || s[i] == '+'
}

/// The target that the call with this opening paren declares, and whether its
/// name could be read.
pub open spec fn declared_at(s: Seq<char>, paren: int) -> (Seq<char>, bool) {
    let args = s.subrange(paren + 1, index_from(s, ')', paren + 1));
    match name_argument(args, 0) {
        Some(name) => if is_target_name(name) {
            (name, true)
        } else {
            ("node"@, false)
        },
        None => ("node"@, false),
    }
}

/// The node toolchain that a file declares.
pub open spec fn declared_toolchain(s: Seq<char>) -> Option<(Seq<char>, bool)> {
    match first_call(s, 0) {
        Some(paren) => Some(declared_at(s, paren)),
        None => None,
    }
}

// --- What is written --------------------------------------------------------------

/// The block that is managed inside `toolchains/BUCK`.
pub open spec fn block_text(label: Seq<char>) -> Seq<char> {
    BEGIN@ + "\nload(\""@ + label
        + "\", \"system_node_toolchain\")\nsystem_node_toolchain(name = \"node\", visibility = [\"PUBLIC\"])\n"@
        + END@ + "\n"@
}

/// Where the managed span ends: behind the end marker and its line ending.
pub open spec fn span_end(s: Seq<char>, end: int) -> int {
    let t = end + END@.len();
    if t + 1 < s.len() && s[t] == '\r' && s[t + 1] == '\n' {
        t + 2
    } else if t < s.len() && s[t] == '\n' {
        t + 1
    } else {
        t
    }
}

/// Exactly one of each marker stands in the file, in order.
pub open spec fn has_block(s: Seq<char>) -> bool {
    &&& count_from(s, BEGIN@, 0) == 1
    &&& count_from(s, END@, 0) == 1
    &&& find_from(s, BEGIN@, 0) is Some
    &&& find_from(s, END@, 0) is Some
    &&& find_from(s, END@, 0)->Some_0 > find_from(s, BEGIN@, 0)->Some_0
}

/// No marker stands in the file.
pub open spec fn has_no_marker(s: Seq<char>) -> bool {
    count_from(s, BEGIN@, 0) == 0 && count_from(s, END@, 0) == 0
}

/// What is written to the file, if anything, and what became of it.
pub open spec fn applied(existing: Option<Seq<char>>, block: Seq<char>, force: bool) -> (
    Option<Seq<char>>,
    OutcomeModel,
) {
    match existing {
        None => (Some(block), OutcomeModel::Created),
        Some(s) => if s.len() == 0 {
            (Some(block), OutcomeModel::Created)
        } else if has_block(s) {
            let from = find_from(s, BEGIN@, 0)->Some_0;
            let to = span_end(s, find_from(s, END@, 0)->Some_0);
            if s.subrange(from, to) == block {
                (None, OutcomeModel::AlreadyManaged)
            } else if !force {
                (None, OutcomeModel::StaleManaged)
            } else {
                (Some(s.take(from) + block + s.skip(to)), OutcomeModel::Replaced)
            }
        } else if has_no_marker(s) {
            match declared_toolchain(s) {
                Some((name, parsed)) => (None, OutcomeModel::ExistingToolchain { name, parsed }),
                None => (
                    Some(
                        s + (if s.last() == '\n' {
                            Seq::empty()
                        } else {
                            seq!['\n']
                        }) + seq!['\n'] + block,
                    ),
                    OutcomeModel::Appended,
                ),
            }
        } else {
            (None, OutcomeModel::Unparseable)
        },
    }
}

// --- Doing it ---------------------------------------------------------------------

/// The marker-delimited block inside `toolchains/BUCK`.
pub fn managed_block(toolchain_bzl_label: &str) -> (r: String)
    ensures
        r@ == block_text(toolchain_bzl_label@),
{
    let mut out = BEGIN.to_owned();
    out.append("\nload(\"");
    out.append(toolchain_bzl_label);
    out.append(
        "\", \"system_node_toolchain\")\nsystem_node_toolchain(name = \"node\", visibility = [\"PUBLIC\"])\n",
    );
    out.append(END);
    out.append("\n");
    out
}

/// The bounds of the line at `lo`: where its text ends and where its newline, or
/// the end of the file, stands.
fn line_bounds(chars: &Vec<char>, lo: usize) -> (r: (usize, usize))
    requires
        lo < chars.len(),
    ensures
        lo <= r.0 <= r.1 <= chars.len(),
        r.1 == line_end(chars@, lo as int),
        r.0 == trimmed_end(chars@, lo as int, r.1 as int),
{
    let mut e: usize = lo;
    while e < chars.len() && chars[e] != '\n'
        invariant
            lo <= e <= chars.len(),
            line_end(chars@, lo as int) == line_end(chars@, e as int),
        decreases chars.len() - e,
    {
        e += 1;
    }
    let mut t: usize = e;
    while t > lo && (chars[t - 1] == '\n' || chars[t - 1] == '\r')
        invariant
            lo <= t <= e <= chars.len(),
            trimmed_end(chars@, lo as int, e as int) == trimmed_end(chars@, lo as int, t as int),
        decreases t,
    {
        t -= 1;
    }
    (t, e)
}

fn find_call(chars: &Vec<char>, lo: usize, hi: usize) -> (r: Option<usize>)
    requires
        lo <= hi <= chars.len(),
    ensures
        match r {
            Some(p) => p < hi && call_in_line(chars@.take(hi as int), lo as int, lo as int) == Some(
                p as int,
            ),
            None => call_in_line(chars@.take(hi as int), lo as int, lo as int) is None,
        },
{
    let ghost line = chars@.take(hi as int);
    let rule = chars_of(RULE);
    let mut from: usize = lo;
    proof {
        reveal_strlit("system_node_toolchain");
    }
    // A line can hold the name more than once: one that is part of a longer
    // identifier must not hide a call later on the same line.
    loop
        invariant
            line == chars@.take(hi as int),
            lo <= from <= hi <= chars.len(),
            rule@ == RULE@,
            rule.len() > 0,
            call_in_line(line, lo as int, lo as int) == call_in_line(line, lo as int, from as int),
        decreases hi - from,
    {
        match find(chars, hi, &rule, from) {
            None => {
                return None;
            },
            Some(i) => {
                let boundary = i == lo || !word_char(chars[i - 1]);
                assert(i > lo ==> line[i - 1] == chars@[i - 1]);
                let p = after_space(chars, hi, i + rule.len());
                assert(p < hi ==> line[p as int] == chars@[p as int]);
                if boundary && p < hi && chars[p] == '(' {
                    return Some(p);
                }
                from = i + rule.len();
            },
        }
    }
}

fn find_declaration(chars: &Vec<char>) -> (r: Option<usize>)
    ensures
        match r {
            Some(p) => p < chars.len() && first_call(chars@, 0) == Some(p as int),
            None => first_call(chars@, 0) is None,
        },
{
    let mut lo: usize = 0;
    while lo < chars.len()
        invariant
            lo <= chars.len(),
            first_call(chars@, 0) == first_call(chars@, lo as int),
        decreases chars.len() - lo,
    {
        let (t, e) = line_bounds(chars, lo);
        let ghost line = chars@.take(t as int);
        let first = after_space(chars, t, lo);
        assert(first < t ==> line[first as int] == chars@[first as int]);
        if !(first < t && chars[first] == '#') {
            if let Some(p) = find_call(chars, lo, t) {
                return Some(p);
            }
        }
        if e == chars.len() {
            assert(first_call(chars@, e + 1) is None);
            return None;
        }
        lo = e + 1;
    }
    None
}

/// Pull `"..."` out of a `name = "..."` keyword argument.
fn parse_name_argument(args: &Vec<char>) -> (r: Option<String>)
    ensures
        match r {
            Some(s) => name_argument(args@, 0) == Some(s@),
            None => name_argument(args@, 0) is None,
        },
{
    let word = chars_of("name");
    let n: usize = args.len();
    let mut from: usize = 0;
    proof {
        reveal_strlit("name");
        assert(args@.take(n as int) =~= args@);
    }
    loop
        invariant
            n == args.len(),
            args@.take(n as int) == args@,
            from <= n,
            word@ == "name"@,
            word.len() > 0,
            name_argument(args@, 0) == name_argument(args@, from as int),
        decreases n - from,
    {
        match find(args, n, &word, from) {
            None => {
                return None;
            },
            Some(i) => {
                let boundary = i == from || !word_char(args[i - 1]);
                let p = after_space(args, n, i + word.len());
                if boundary && p < n && args[p] == '=' {
                    let v = after_space(args, n, p + 1);
                    if v < n && (args[v] == '"' || args[v] == '\'') {
                        let end = find_char(args, args[v], v + 1);
                        if v + 1 < end && end < n {
                            return Some(text_of(args, v + 1, end));
                        }
                    }
                    return None;
                }
                from = i + word.len();
            },
        }
    }
}

/// Is `s` a legal Buck target name? Stricter than Buck's grammar: the name goes
/// unescaped into a label.
fn is_valid_buck_target_name(s: &str) -> (r: bool)
    ensures
        r == is_target_name(s@),
{
    let chars = chars_of(s);
    if chars.len() == 0 || same(s, ".") || same(s, "..") {
        return false;
    }
    let mut i: usize = 0;
    while i < chars.len()
        invariant
            chars@ == s@,
            i <= chars.len(),
            forall|k: int|
                0 <= k < i ==> is_ascii_alnum(#[trigger] s@[k]) || s@[k] == '_' || s@[k] == '-'
                    || s@[k] == '.' || s@[k] == '+',
        decreases chars.len() - i,
    {
        let c = chars[i];
        if !(ascii_alnum(c) || c == '_' || c == '-' || c == '.' || c == '+') {
            assert(s@[i as int] == c);
            return false;
        }
        i += 1;
    }
    true
}

/// Does the file already declare a node toolchain?
///
/// Deliberately textual: a false positive costs one printed line, a false
/// negative a duplicate target.
fn existing_node_toolchain(chars: &Vec<char>) -> (r: Option<(String, bool)>)
    ensures
        match r {
            Some((name, parsed)) => declared_toolchain(chars@) == Some((name@, parsed)),
            None => declared_toolchain(chars@) is None,
        },
{
    match find_declaration(chars) {
        None => None,
        Some(p) => {
            let close = find_char(chars, ')', p + 1);
            let args_text = text_of(chars, p + 1, close);
            let args = chars_of(args_text.as_str());
            match parse_name_argument(&args) {
                Some(name) => if is_valid_buck_target_name(name.as_str()) {
                    Some((name, true))
                } else {
                    Some(("node".to_owned(), false))
                },
                None => Some(("node".to_owned(), false)),
            }
        },
    }
}

/// Compute the new contents of `toolchains/BUCK`.
///
/// Returns `(None, outcome)` when nothing should be written.
pub fn apply(existing: Option<&str>, block: &str, force: bool) -> (r: (
    Option<String>,
    AppendOutcome,
))
    ensures
        (r.0.deep_view(), r.1.deep_view()) == applied(
            match existing {
                Some(s) => Some(s@),
                None => None,
            },
            block@,
            force,
        ),
{
    let text = match existing {
        None => {
            return (Some(block.to_owned()), AppendOutcome::Created);
        },
        Some(text) => text,
    };
    let chars = chars_of(text);
    // An empty file is the same logical state as an absent one.
    if chars.len() == 0 {
        return (Some(block.to_owned()), AppendOutcome::Created);
    }
    let begin_mark = chars_of(BEGIN);
    let end_mark = chars_of(END);
    let n: usize = chars.len();
    proof {
        reveal_strlit("# --- begin pudu-managed (do not edit inside this block) ---");
        reveal_strlit("# --- end pudu-managed ---");
        assert(chars@.take(n as int) =~= chars@);
        find_is_first(text@, BEGIN@);
        find_is_first(text@, END@);
        count_none(text@, BEGIN@, 0);
        count_none(text@, END@, 0);
    }
    let begins: usize = count(&chars, &begin_mark);
    let ends: usize = count(&chars, &end_mark);
    let begin = find(&chars, n, &begin_mark, 0);
    let end = find(&chars, n, &end_mark, 0);
    if begins == 1 && ends == 1 {
        if let (Some(b), Some(e)) = (begin, end) {
            if e > b {
                let mut tail: usize = e + end_mark.len();
                if tail < n && n - tail >= 2 && chars[tail] == '\r' && chars[tail + 1] == '\n' {
                    tail += 2;
                } else if tail < n && chars[tail] == '\n' {
                    tail += 1;
                }
                assert(tail == span_end(text@, e as int));
                let current = text_of(&chars, b, tail);
                if same(current.as_str(), block) {
                    return (None, AppendOutcome::AlreadyManaged);
                }
                if !force {
                    return (None, AppendOutcome::StaleManaged);
                }
                let mut out = text_of(&chars, 0, b);
                out.append(block);
                out.append(text_of(&chars, tail, n).as_str());
                assert(out@ =~= text@.take(b as int) + block@ + text@.skip(tail as int));
                return (Some(out), AppendOutcome::Replaced);
            }
        }
    }
    if begins == 0 && ends == 0 {
        if let Some((name, parsed)) = existing_node_toolchain(&chars) {
            return (None, AppendOutcome::ExistingToolchain { name, parsed });
        }
        let mut out = text.to_owned();
        if chars[n - 1] != '\n' {
            out.push('\n');
        }
        out.push('\n');
        out.append(block);
        proof {
            let gap = if text@.last() == '\n' {
                Seq::<char>::empty()
            } else {
                seq!['\n']
            };
            assert(out@ =~= text@ + gap + seq!['\n'] + block@);
        }
        return (Some(out), AppendOutcome::Appended);
    }
    // Not exactly one of each marker, or the end before the beginning: a false
    // refusal costs one printed instruction, a false write could destroy content.
    (None, AppendOutcome::Unparseable)
}

// --- Laws -------------------------------------------------------------------------

/// A text that opens with the begin marker, closes with the end marker and a
/// newline, and holds neither anywhere else.
pub open spec fn is_block(block: Seq<char>) -> bool {
    &&& block.len() > END@.len() + 1
    &&& block.last() == '\n'
    &&& sole_at(block, BEGIN@, 0)
    &&& sole_at(block, END@, block.len() - END@.len() - 1)
}

spec fn is_marker(p: Seq<char>) -> bool {
    &&& no_overlap(p)
    &&& p[0] == '#'
    &&& forall|i: int| 0 <= i < p.len() ==> #[trigger] p[i] != '\n' && p[i] != '"'
}

proof fn markers_are_markers()
    ensures
        is_marker(BEGIN@),
        is_marker(END@),
        BEGIN@.len() == 60,
        END@.len() == 26,
        BEGIN@[6] == 'b',
        END@[6] == 'e',
{
    reveal_strlit("# --- begin pudu-managed (do not edit inside this block) ---");
    reveal_strlit("# --- end pudu-managed ---");
    let b = "# --- begin pudu-managed (do not edit inside this block) ---"@;
    let e = "# --- end pudu-managed ---"@;
    assert(BEGIN@ == b);
    assert(END@ == e);
    assert(forall|i: int| 0 < i < b.len() ==> #[trigger] b[i] != '#');
    assert(forall|i: int| 0 < i < e.len() ==> #[trigger] e[i] != '#');
    assert(forall|i: int| 0 <= i < b.len() ==> #[trigger] b[i] != '\n' && b[i] != '"');
    assert(forall|i: int| 0 <= i < e.len() ==> #[trigger] e[i] != '\n' && e[i] != '"');
}

proof fn occurs_within(s: Seq<char>, p: Seq<char>, lo: int, hi: int, j: int)
    requires
        0 <= lo <= j,
        j + p.len() <= hi <= s.len(),
    ensures
        occurs_at(s, p, j) <==> occurs_at(s.subrange(lo, hi), p, j - lo),
{
    assert(s.subrange(lo, hi).subrange(j - lo, j - lo + p.len()) =~= s.subrange(j, j + p.len()));
}

/// A block keeps its markers to itself wherever it is put.
proof fn block_stays_sole(pre: Seq<char>, block: Seq<char>, post: Seq<char>, p: Seq<char>, k: int)
    requires
        is_marker(p),
        block.len() > 0,
        block[0] == '#',
        block.last() == '\n',
        sole_at(block, p, k),
        forall|j: int| !occurs_at(pre, p, j),
        forall|j: int| !occurs_at(post, p, j),
    ensures
        sole_at(pre + block + post, p, pre.len() + k),
{
    let t = pre + block + post;
    let a = pre.len() as int;
    let b = a + block.len();
    assert(t.subrange(0, a) =~= pre);
    assert(t.subrange(a, b) =~= block);
    assert(t.subrange(b, t.len() as int) =~= post);
    occurs_within(t, p, a, b, a + k);
    assert forall|j: int| occurs_at(t, p, j) implies j == a + k by {
        let here = t.subrange(j, j + p.len());
        if j + p.len() <= a {
            occurs_within(t, p, 0, a, j);
        } else if j < a {
            assert(here[a - j] == t[a]);
            assert(p[a - j] == '#');
        } else if j + p.len() <= b {
            occurs_within(t, p, a, b, j);
        } else if j < b {
            assert(here[b - 1 - j] == t[b - 1]);
            assert(p[b - 1 - j] == '\n');
        } else {
            occurs_within(t, p, b, t.len() as int, j);
        }
    }
}

proof fn block_is_found(pre: Seq<char>, block: Seq<char>, post: Seq<char>, force: bool)
    requires
        is_block(block),
        forall|j: int| !occurs_at(pre, BEGIN@, j),
        forall|j: int| !occurs_at(pre, END@, j),
        forall|j: int| !occurs_at(post, BEGIN@, j),
        forall|j: int| !occurs_at(post, END@, j),
    ensures
        applied(Some(pre + block + post), block, force) == (
            None::<Seq<char>>,
            OutcomeModel::AlreadyManaged,
        ),
{
    let s = pre + block + post;
    let e = block.len() - END@.len() - 1;
    markers_are_markers();
    assert(block.subrange(0, BEGIN@.len() as int)[0] == block[0]);
    block_stays_sole(pre, block, post, BEGIN@, 0);
    block_stays_sole(pre, block, post, END@, e);
    counted_once_is_sole(s, BEGIN@);
    counted_once_is_sole(s, END@);
    if e == 0 {
        assert(block.subrange(0, BEGIN@.len() as int)[6] == block[6]);
        assert(block.subrange(0, END@.len() as int)[6] == block[6]);
    }
    let from = pre.len() as int;
    let at = from + e;
    assert(has_block(s));
    assert(s[at + END@.len()] == block.last());
    assert(span_end(s, at) == from + block.len());
    assert(s.subrange(from, from + block.len()) =~= block);
}

/// Applying the same block again changes nothing: what was written is
/// recognised as up to date, whether or not the second run is forced.
pub proof fn applying_again_changes_nothing(
    existing: Option<Seq<char>>,
    block: Seq<char>,
    force: bool,
    again: bool,
)
    requires
        is_block(block),
        applied(existing, block, force).0 is Some,
    ensures
        applied(applied(existing, block, force).0, block, again) == (
            None::<Seq<char>>,
            OutcomeModel::AlreadyManaged,
        ),
{
    markers_are_markers();
    let none = Seq::<char>::empty();
    let written = applied(existing, block, force).0->Some_0;
    match existing {
        None => {
            assert(written =~= none + block + none);
            block_is_found(none, block, none, again);
        },
        Some(s) => {
            if s.len() == 0 {
                assert(written =~= none + block + none);
                block_is_found(none, block, none, again);
            } else if has_block(s) {
                let from = find_from(s, BEGIN@, 0)->Some_0;
                let e = find_from(s, END@, 0)->Some_0;
                let to = span_end(s, e);
                find_is_first(s, BEGIN@);
                find_is_first(s, END@);
                counted_once_is_sole(s, BEGIN@);
                counted_once_is_sole(s, END@);
                let kb = choose|k: int| #[trigger] sole_at(s, BEGIN@, k);
                let ke = choose|k: int| #[trigger] sole_at(s, END@, k);
                assert(kb == from && ke == e);
                let pre = s.take(from);
                let post = s.skip(to);
                assert forall|j: int| !occurs_at(pre, BEGIN@, j) by {
                    if occurs_at(pre, BEGIN@, j) {
                        occurs_within(s, BEGIN@, 0, from, j);
                    }
                }
                assert forall|j: int| !occurs_at(pre, END@, j) by {
                    if occurs_at(pre, END@, j) {
                        occurs_within(s, END@, 0, from, j);
                    }
                }
                assert forall|j: int| !occurs_at(post, BEGIN@, j) by {
                    if occurs_at(post, BEGIN@, j) {
                        occurs_within(s, BEGIN@, to, s.len() as int, to + j);
                    }
                }
                assert forall|j: int| !occurs_at(post, END@, j) by {
                    if occurs_at(post, END@, j) {
                        occurs_within(s, END@, to, s.len() as int, to + j);
                    }
                }
                block_is_found(pre, block, post, again);
            } else {
                let gap = if s.last() == '\n' {
                    Seq::<char>::empty()
                } else {
                    seq!['\n']
                };
                let pre = s + gap + seq!['\n'];
                count_none(s, BEGIN@, 0);
                count_none(s, END@, 0);
                nothing_in_lines(s, gap, BEGIN@);
                nothing_in_lines(s, gap, END@);
                assert(written =~= pre + block + none);
                block_is_found(pre, block, none, again);
            }
        },
    }
}

proof fn nothing_in_lines(s: Seq<char>, gap: Seq<char>, p: Seq<char>)
    requires
        is_marker(p),
        forall|j: int| !occurs_at(s, p, j),
        gap.len() == 0 || gap == seq!['\n'],
    ensures
        forall|j: int| !occurs_at(s + gap + seq!['\n'], p, j),
{
    let t = s + gap + seq!['\n'];
    let n = s.len() as int;
    assert(t.subrange(0, n) =~= s);
    assert(t[n] == '\n');
    assert forall|j: int| !occurs_at(t, p, j) by {
        if occurs_at(t, p, j) {
            let here = t.subrange(j, j + p.len());
            if j + p.len() <= n {
                occurs_within(t, p, 0, n, j);
            } else if j <= n {
                assert(here[n - j] == t[n]);
            } else {
                assert(here[0] == t[j]);
            }
        }
    }
}

/// What is written keeps the user's text: all of it where a block is appended,
/// and all of it outside the markers where a block is replaced.
pub proof fn user_text_is_kept(s: Seq<char>, block: Seq<char>, force: bool)
    requires
        s.len() > 0,
    ensures
        ({
            let (written, outcome) = applied(Some(s), block, force);
            &&& outcome is Appended ==> s.is_prefix_of(written->Some_0)
            &&& outcome is Replaced ==> exists|from: int, to: int|
                occurs_at(s, BEGIN@, from) && #[trigger] span_end(s, to) <= s.len()
                    && occurs_at(s, END@, to) && from < to && written == Some(
                    #[trigger] s.take(from) + block + s.skip(span_end(s, to)),
                )
            &&& !(outcome is Appended || outcome is Replaced) ==> written is None
        }),
{
    let (written, outcome) = applied(Some(s), block, force);
    find_is_first(s, BEGIN@);
    find_is_first(s, END@);
    if outcome is Appended {
        let w = written->Some_0;
        assert(w.subrange(0, s.len() as int) =~= s);
    }
    if outcome is Replaced {
        let from = find_from(s, BEGIN@, 0)->Some_0;
        let to = find_from(s, END@, 0)->Some_0;
        assert(occurs_at(s, BEGIN@, from) && span_end(s, to) <= s.len());
        assert(written == Some(s.take(from) + block + s.skip(span_end(s, to))));
    }
}

/// A file that declares a node toolchain of its own and holds no marker is never
/// written to.
pub proof fn existing_toolchain_is_left_alone(s: Seq<char>, block: Seq<char>, force: bool)
    requires
        s.len() > 0,
        has_no_marker(s),
        declared_toolchain(s) is Some,
    ensures
        applied(Some(s), block, force).0 is None,
        applied(Some(s), block, force).1 is ExistingToolchain,
{
    find_is_first(s, BEGIN@);
    markers_are_markers();
    count_none(s, BEGIN@, 0);
}

/// The block for a label that holds no marker is a block: the convergence of
/// repeated runs holds of it.
pub proof fn managed_block_is_a_block(label: Seq<char>)
    requires
        forall|j: int| !occurs_at(label, BEGIN@, j),
        forall|j: int| !occurs_at(label, END@, j),
    ensures
        is_block(block_text(label)),
{
    markers_are_markers();
    reveal_strlit("\nload(\"");
    reveal_strlit(
        "\", \"system_node_toolchain\")\nsystem_node_toolchain(name = \"node\", visibility = [\"PUBLIC\"])\n",
    );
    reveal_strlit("\n");
    let open = "\nload(\""@;
    let close = "\", \"system_node_toolchain\")\nsystem_node_toolchain(name = \"node\", visibility = [\"PUBLIC\"])\n"@;
    let block = block_text(label);
    let b = BEGIN@.len() as int;
    let l = b + open.len();
    let c = l + label.len();
    let e = c + close.len();
    assert(block.subrange(0, b) =~= BEGIN@);
    assert(block.subrange(e, e + END@.len()) =~= END@);
    assert(block.subrange(l, c) =~= label);
    assert(block.len() == e + END@.len() + 1);
    assert(forall|i: int| 0 <= i < open.len() ==> #[trigger] open[i] != '#');
    assert(forall|i: int| 0 <= i < close.len() ==> #[trigger] close[i] != '#');
    assert forall|p: Seq<char>, j: int| #![trigger occurs_at(block, p, j)]
        is_marker(p) && (forall|k: int| !occurs_at(label, p, k)) && occurs_at(block, p, j) implies j == 0 || j == e by {
        let here = block.subrange(j, j + p.len());
        assert(here[0] == block[j]);
        assert(block[j] == '#');
        if 0 < j < b {
            assert(block[j] == BEGIN@[j]);
        } else if b <= j < l {
            assert(block[j] == open[j - b]);
        } else if l <= j < c {
            if j + p.len() <= c {
                occurs_within(block, p, l, c, j);
            } else {
                assert(here[c - j] == block[c]);
                assert(block[c] == close[0]);
            }
        } else if c <= j < e {
            assert(block[j] == close[j - c]);
        } else if j > e {
            if j < e + END@.len() {
                assert(block[j] == END@[j - e]);
            }
        }
    }
    assert(occurs_at(block, BEGIN@, 0));
    assert(occurs_at(block, END@, e));
    assert(!occurs_at(block, BEGIN@, e)) by {
        if occurs_at(block, BEGIN@, e) {
            assert(block.subrange(e, e + BEGIN@.len())[6] == block[e + 6]);
            assert(block.subrange(e, e + END@.len())[6] == block[e + 6]);
        }
    }
    assert(!occurs_at(block, END@, 0)) by {
        if occurs_at(block, END@, 0) {
            assert(block.subrange(0, BEGIN@.len() as int)[6] == block[6]);
            assert(block.subrange(0, END@.len() as int)[6] == block[6]);
        }
    }
}

/// The rule is called at `i`, with its opening paren at `p`: its name stands there as a
/// word of its own, and nothing but white space within the line lies between.
pub open spec fn is_call(s: Seq<char>, i: int, p: int) -> bool {
    &&& occurs_at(s, RULE@, i)
    &&& i == 0 || !is_word_char(s[i - 1])
    &&& i + RULE@.len() <= p < s.len()
    &&& s[p] == '('
    &&& forall|j: int| i + RULE@.len() <= j < p ==> is_space(#[trigger] s[j]) && s[j] != '\n'
}

/// The place `i` lies on the line that starts at `lo`.
pub open spec fn on_line(s: Seq<char>, lo: int, i: int) -> bool {
    &&& 0 <= lo <= i <= s.len()
    &&& lo == 0 || s[lo - 1] == '\n'
    &&& forall|j: int| lo <= j < i ==> #[trigger] s[j] != '\n'
}

/// The line that holds the place `i` is a comment up to it.
pub open spec fn is_commented(s: Seq<char>, i: int) -> bool {
    exists|lo: int, h: int|
        {
            &&& #[trigger] on_line(s, lo, i)
            &&& lo <= h < i
            &&& #[trigger] s[h] == '#'
            &&& forall|j: int| lo <= j < h ==> is_space(#[trigger] s[j])
        }
}

proof fn rule_is_one_word()
    ensures
        RULE@.len() == 21,
        forall|j: int| 0 <= j < 21 ==> #[trigger] RULE@[j] != '\n' && RULE@[j] != '#' && !is_space(
            RULE@[j],
        ),
        forall|s: Seq<char>, i: int, j: int|
            #![trigger occurs_at(s, RULE@, i), occurs_at(s, RULE@, j)]
            occurs_at(s, RULE@, i) && i < j < i + 21 ==> !occurs_at(s, RULE@, j),
{
    reveal_strlit("system_node_toolchain");
    let r = "system_node_toolchain"@;
    assert(RULE@ == r);
    assert(r.len() == 21);
    assert forall|s: Seq<char>, i: int, j: int|
        #![trigger occurs_at(s, RULE@, i), occurs_at(s, RULE@, j)]
        occurs_at(s, RULE@, i) && i < j < i + 21 implies !occurs_at(s, RULE@, j) by {
        if occurs_at(s, RULE@, j) {
            assert(s.subrange(i, i + 21)[j - i] == s[j]);
            assert(s.subrange(j, j + 21)[0] == s[j]);
            assert(r[j - i] == r[0]);
            assert(forall|k: int| 0 < k < 21 && k != 2 ==> #[trigger] r[k] != r[0]);
            assert(j == i + 2);
            assert(s.subrange(i, i + 21)[3] == s[i + 3]);
            assert(s.subrange(j, j + 21)[1] == s[i + 3]);
        }
    }
}

proof fn line_end_is(s: Seq<char>, i: int)
    requires
        0 <= i <= s.len(),
    ensures
        i <= line_end(s, i) <= s.len(),
        line_end(s, i) < s.len() ==> s[line_end(s, i)] == '\n',
        forall|j: int| i <= j < line_end(s, i) ==> #[trigger] s[j] != '\n',
    decreases s.len() - i,
{
    if i < s.len() && s[i] != '\n' {
        line_end_is(s, i + 1);
    }
}

proof fn trimmed_end_is(s: Seq<char>, lo: int, hi: int)
    requires
        0 <= lo <= hi <= s.len(),
    ensures
        lo <= trimmed_end(s, lo, hi) <= hi,
        forall|j: int|
            trimmed_end(s, lo, hi) <= j < hi ==> #[trigger] s[j] == '\n' || s[j] == '\r',
    decreases hi - lo,
{
    if hi > lo && (s[hi - 1] == '\n' || s[hi - 1] == '\r') {
        trimmed_end_is(s, lo, hi - 1);
    }
}

/// What `call_in_line` looks for, at `i`.
spec fn calls_at(line: Seq<char>, lo: int, i: int) -> bool {
    let p = skip_space(line, i + RULE@.len());
    occurs_at(line, RULE@, i) && at_boundary(line, lo, i) && p < line.len() && line[p] == '('
}

proof fn call_in_line_is(line: Seq<char>, lo: int, from: int)
    requires
        0 <= lo <= from,
    ensures
        match call_in_line(line, lo, from) {
            Some(p) => exists|i: int|
                from <= i && #[trigger] calls_at(line, lo, i) && p == skip_space(
                    line,
                    i + RULE@.len(),
                ),
            None => forall|i: int| from <= i ==> !#[trigger] calls_at(line, lo, i),
        },
    decreases line.len() - from,
{
    rule_is_one_word();
    find_from_first(line, RULE@, from);
    if let Some(i) = find_from(line, RULE@, from) {
        let p = skip_space(line, i + RULE@.len());
        if calls_at(line, lo, i) {
            assert(call_in_line(line, lo, from) == Some(p));
        } else {
            call_in_line_is(line, lo, i + RULE@.len());
            assert forall|j: int| from <= j && call_in_line(line, lo, from) is None implies !#[trigger] calls_at(
                line,
                lo,
                j,
            ) by {
                if j < i + RULE@.len() && occurs_at(line, RULE@, j) {
                    assert(j == i);
                }
            }
        }
    }
}

/// On the line from `lo` to `end`, a call of the rule is what `call_in_line` looks for.
proof fn calls_on_a_line(s: Seq<char>, lo: int, end: int, i: int)
    requires
        0 <= lo < s.len(),
        lo == 0 || s[lo - 1] == '\n',
        end == line_end(s, lo),
        lo <= i,
    ensures
        ({
            let line = s.take(trimmed_end(s, lo, end));
            let p = skip_space(line, i + RULE@.len());
            &&& calls_at(line, lo, i) ==> is_call(s, i, p) && on_line(s, lo, i)
            &&& forall|q: int| #[trigger] is_call(s, i, q) && i < end ==> calls_at(line, lo, i) && q
                == p
        }),
{
    line_end_is(s, lo);
    trimmed_end_is(s, lo, end);
    rule_is_one_word();
    let stop = trimmed_end(s, lo, end);
    let line = s.take(stop);
    let from = i + RULE@.len();
    let p = skip_space(line, from);
    if occurs_at(line, RULE@, i) {
        skip_space_stops(line, from);
        assert(s.subrange(i, i + 21) =~= line.subrange(i, i + 21));
        assert forall|j: int| from <= j < p implies is_space(#[trigger] s[j]) && s[j] != '\n' by {
            assert(line[j] == s[j]);
        }
        if calls_at(line, lo, i) {
            assert(line[p] == s[p]);
            assert(i > lo ==> line[i - 1] == s[i - 1]);
            assert(is_call(s, i, p));
        }
    }
    assert forall|q: int| #[trigger] is_call(s, i, q) && i < end implies calls_at(line, lo, i) && q
        == p by {
        let here = s.subrange(i, i + 21);
        assert forall|j: int| i <= j <= q implies #[trigger] s[j] != '\n' by {
            if j < i + 21 {
                assert(here[j - i] == s[j]);
            }
        }
        assert(q < end) by {
            if end <= q {
                assert(s[end] != '\n');
            }
        }
        assert(q < stop) by {
            if stop <= q {
                assert(s[q] == '(');
            }
        }
        assert(line.subrange(i, i + 21) =~= here);
        assert(i > lo ==> line[i - 1] == s[i - 1]);
        assert forall|j: int| from <= j < q implies is_space(#[trigger] line[j]) by {
            assert(line[j] == s[j]);
        }
        skip_space_stops(line, from);
        assert(line[q] == '(');
        assert(p == q);
    }
}

proof fn first_call_is(s: Seq<char>, lo: int)
    requires
        0 <= lo,
        lo <= 0 || lo > s.len() || s[lo - 1] == '\n',
    ensures
        match first_call(s, lo) {
            Some(p) => exists|i: int| #[trigger] is_call(s, i, p) && !is_commented(s, i),
            None => forall|i: int, p: int|
                lo <= i && #[trigger] is_call(s, i, p) ==> is_commented(s, i),
        },
    decreases s.len() + 1 - lo,
{
    rule_is_one_word();
    if lo < s.len() {
        let end = line_end(s, lo);
        line_end_is(s, lo);
        trimmed_end_is(s, lo, end);
        let stop = trimmed_end(s, lo, end);
        let line = s.take(stop);
        let first = skip_space(line, lo);
        skip_space_stops(line, lo);
        let comment = first < line.len() && line[first] == '#';
        first_call_is(s, end + 1);
        call_in_line_is(line, lo, lo);
        if comment {
            assert(s[first] == '#');
            assert forall|i: int, p: int| lo <= i && i < end && #[trigger] is_call(s, i, p) implies is_commented(
                s,
                i,
            ) by {
                assert(on_line(s, lo, i));
                if i <= first {
                    assert(s.subrange(i, i + 21)[first - i] == s[first] || first >= i + 21);
                    assert(s.subrange(i, i + 21)[0] == s[i]);
                    if i < first {
                        assert(line[i] == s[i]);
                    }
                }
                assert forall|j: int| lo <= j < first implies is_space(#[trigger] s[j]) by {
                    assert(line[j] == s[j]);
                }
                assert(on_line(s, lo, i) && s[first] == '#');
            }
        } else {
            if call_in_line(line, lo, lo) is Some {
                let p = call_in_line(line, lo, lo)->Some_0;
                let i = choose|i: int|
                    lo <= i && #[trigger] calls_at(line, lo, i) && p == skip_space(
                        line,
                        i + RULE@.len(),
                    );
                calls_on_a_line(s, lo, end, i);
                assert(is_call(s, i, p));
                if is_commented(s, i) {
                    let (lo2, h) = choose|lo2: int, h: int|
                        {
                            &&& #[trigger] on_line(s, lo2, i)
                            &&& lo2 <= h < i
                            &&& #[trigger] s[h] == '#'
                            &&& forall|j: int| lo2 <= j < h ==> is_space(#[trigger] s[j])
                        };
                    if lo2 < lo {
                        assert(s[lo - 1] == '\n');
                    }
                    if lo < lo2 {
                        assert(s[lo2 - 1] == '\n');
                    }
                    assert(lo2 == lo);
                    assert(line[h] == s[h]);
                    if first < h {
                        assert(line[first] == s[first]);
                    }
                    assert(first == h);
                }
            } else {
                assert forall|i: int, p: int| lo <= i && i < end && #[trigger] is_call(s, i, p) implies is_commented(
                    s,
                    i,
                ) by {
                    calls_on_a_line(s, lo, end, i);
                    assert(!calls_at(line, lo, i));
                }
            }
        }
        assert forall|i: int, p: int| #[trigger] is_call(s, i, p) implies i != end by {
            if i == end {
                assert(s.subrange(i, i + 21)[0] == s[i]);
            }
        }
    }
}

/// A file declares a toolchain of its own exactly where it calls the rule outside a
/// comment: the paren that is found is that of such a call, and where none is found,
/// every call is commented out.
pub proof fn a_toolchain_is_seen_where_it_is_called(s: Seq<char>)
    ensures
        match first_call(s, 0) {
            Some(p) => exists|i: int| #[trigger] is_call(s, i, p) && !is_commented(s, i),
            None => forall|i: int, p: int| #[trigger] is_call(s, i, p) ==> is_commented(s, i),
        },
        declared_toolchain(s) is Some <==> exists|i: int, p: int|
            #[trigger] is_call(s, i, p) && !is_commented(s, i),
{
    first_call_is(s, 0);
}

proof fn a_name_argument_is_quoted(args: Seq<char>, from: int)
    requires
        0 <= from,
        name_argument(args, from) is Some,
    ensures
        ({
            let name = name_argument(args, from)->Some_0;
            ||| stands_in(args, seq!['"'] + name + seq!['"'])
            ||| stands_in(args, seq!['\''] + name + seq!['\''])
        }),
    decreases args.len() - from,
{
    let i = find_from(args, "name"@, from)->Some_0;
    let p = skip_space(args, i + "name"@.len());
    if at_boundary(args, from, i) && p < args.len() && args[p] == '=' {
        let v = skip_space(args, p + 1);
        let q = args[v];
        let name = quoted_at(args, v)->Some_0;
        index_from_first(args, q, v + 1);
        let end = index_from(args, q, v + 1);
        assert(args.subrange(v, end + 1) =~= seq![q] + name + seq![q]);
        assert(occurs_at(args, seq![q] + name + seq![q], v));
    } else {
        find_from_first(args, "name"@, from);
        a_name_argument_is_quoted(args, i + "name"@.len());
    }
}

/// A name that counts as read is a plain one that stands in quotes between the call's
/// parens; any other is the fallback.
pub proof fn a_read_name_stands_in_the_call(s: Seq<char>, p: int)
    requires
        0 <= p < s.len(),
    ensures
        ({
            let (name, parsed) = declared_at(s, p);
            let args = s.subrange(p + 1, index_from(s, ')', p + 1));
            if parsed {
                &&& name.len() > 0
                &&& forall|i: int|
                    0 <= i < name.len() ==> {
                        ||| 'a' <= #[trigger] name[i] <= 'z'
                        ||| 'A' <= name[i] <= 'Z'
                        ||| '0' <= name[i] <= '9'
                        ||| name[i] == '_'
                        ||| name[i] == '-'
                        ||| name[i] == '.'
                        ||| name[i] == '+'
                    }
                &&& {
                    ||| stands_in(args, seq!['"'] + name + seq!['"'])
                    ||| stands_in(args, seq!['\''] + name + seq!['\''])
                }
            } else {
                name == "node"@
            }
        }),
{
    let args = s.subrange(p + 1, index_from(s, ')', p + 1));
    if name_argument(args, 0) is Some {
        a_name_argument_is_quoted(args, 0);
    }
}

/// A file with a marker in it is only ever written to by force, and only where each
/// marker stands in it once, the opening one first.
pub proof fn only_force_touches_markers(s: Seq<char>, block: Seq<char>, force: bool)
    requires
        stands_in(s, BEGIN@) || stands_in(s, END@),
        applied(Some(s), block, force).0 is Some,
    ensures
        force,
        exists|b: int, e: int| b < e && #[trigger] sole_at(s, BEGIN@, b) && #[trigger] sole_at(
            s,
            END@,
            e,
        ),
{
    markers_are_markers();
    count_none(s, BEGIN@, 0);
    count_none(s, END@, 0);
    assert(s.len() > 0);
    find_is_first(s, BEGIN@);
    find_is_first(s, END@);
    counted_once_is_sole(s, BEGIN@);
    counted_once_is_sole(s, END@);
    let b = choose|k: int| #[trigger] sole_at(s, BEGIN@, k);
    let e = choose|k: int| #[trigger] sole_at(s, END@, k);
    assert(b < e);
}

/// A file without a marker and without a toolchain of its own gets the block at its end,
/// a blank line below what stands there. A file that is not there gets the block alone.
pub proof fn a_block_is_appended(s: Seq<char>, block: Seq<char>, force: bool)
    requires
        !stands_in(s, BEGIN@),
        !stands_in(s, END@),
        declared_toolchain(s) is None,
    ensures
        applied(None, block, force).0 == Some(block),
        ({
            let written = applied(Some(s), block, force).0;
            &&& written is Some
            &&& s.len() == 0 ==> written->Some_0 == block
            &&& s.len() > 0 ==> {
                let at = written->Some_0.len() - block.len();
                &&& s.is_prefix_of(written->Some_0)
                &&& written->Some_0.skip(at) == block
                &&& written->Some_0[at - 1] == '\n' && written->Some_0[at - 2] == '\n'
                &&& at <= s.len() + 2
            }
        }),
{
    markers_are_markers();
    count_none(s, BEGIN@, 0);
    count_none(s, END@, 0);
    if s.len() > 0 {
        let written = applied(Some(s), block, force).0->Some_0;
        let at = written.len() - block.len();
        assert(written.skip(at) =~= block);
        assert(s.is_prefix_of(written));
    }
}

/// The managed span takes the line ending behind its end marker with it, whichever it is,
/// and nothing else.
pub proof fn a_span_takes_its_line_ending(s: Seq<char>, end: int)
    requires
        occurs_at(s, END@, end),
    ensures
        ({
            let behind = s.skip(end + END@.len());
            let taken = span_end(s, end) - end - END@.len();
            &&& (seq!['\r', '\n']).is_prefix_of(behind) ==> taken == 2
            &&& (seq!['\n']).is_prefix_of(behind) ==> taken == 1
            &&& !(seq!['\r', '\n']).is_prefix_of(behind) && !(seq!['\n']).is_prefix_of(behind)
                ==> taken == 0
        }),
{
    let t = end + END@.len();
    let behind = s.skip(t);
    let crlf = seq!['\r', '\n'];
    let lf = seq!['\n'];
    if crlf.is_prefix_of(behind) {
        assert(behind[0] == crlf[0] && behind[1] == crlf[1]);
        assert(s[t] == behind[0] && s[t + 1] == behind[1]);
    }
    if lf.is_prefix_of(behind) {
        assert(behind[0] == lf[0]);
        assert(s[t] == behind[0]);
    }
    if t + 1 < s.len() && s[t] == '\r' && s[t + 1] == '\n' {
        assert(behind.take(2) =~= crlf);
    }
    if t < s.len() && s[t] == '\n' {
        assert(behind.take(1) =~= lf);
    }
}

} // verus!
