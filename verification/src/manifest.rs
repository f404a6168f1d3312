//! Reading `package.json`.
//!
//! Three fields are read: `bin`, `directories` and `scripts`. Everything else may hold
//! whatever it likes, as long as it is JSON. A field that stands twice is refused.
//!
//! The parser reads every value. What is decided here is which values are read and in
//! what order faults are found, so that the first fault in the file is the one that is
//! reported, at its place in the file.

use vstd::prelude::*;

use crate::json::{
    add_member, check_map, check_triple, items_model, json_model, json_of, leading_text,
    leading_value, map_fault, member_of, member_value, members_model, object, parse_json,
    triple_fault, Json, JsonModel,
};
use crate::text::{
    byte_len, byte_len_concat, byte_len_prefix, byte_offsets, char_width, chars_of, decimal,
    decimal_text, occurs, occurs_at, same, stands_in, starts_with, text_of,
};

verus! {

// --- Fields -------------------------------------------------------------------------

/// The names of the fields that are read, in order.
pub open spec fn field_name(i: int) -> Seq<char> {
    if i == 0 {
        "bin"@
    } else if i == 1 {
        "directories"@
    } else {
        "scripts"@
    }
}

/// A field that is read.
pub open spec fn is_field(name: Seq<char>) -> bool {
    name == "bin"@ || name == "directories"@ || name == "scripts"@
}

/// A field of this name was read already.
pub open spec fn was_read(fields: Seq<(Seq<char>, JsonModel)>, name: Seq<char>) -> bool {
    exists|i: int| 0 <= i < fields.len() && (#[trigger] fields[i]).0 == name
}

fn field_at(i: usize) -> (r: &'static str)
    ensures
        r@ == field_name(i as int),
{
    if i == 0 {
        "bin"
    } else if i == 1 {
        "directories"
    } else {
        "scripts"
    }
}

fn field(name: &str) -> (r: bool)
    ensures
        r == is_field(name@),
{
    same(name, "bin") || same(name, "directories") || same(name, "scripts")
}

fn read_before(fields: &Vec<(String, Json)>, name: &str) -> (r: bool)
    ensures
        r == was_read(members_model(fields@), name@),
{
    let ghost ms = members_model(fields@);
    let mut i: usize = 0;
    while i < fields.len()
        invariant
            ms == members_model(fields@),
            i <= fields.len(),
            forall|k: int| 0 <= k < i ==> (#[trigger] ms[k]).0 != name@,
        decreases fields.len() - i,
    {
        assert(ms[i as int].0 == fields@[i as int].0@);
        if same(fields[i].0.as_str(), name) {
            return true;
        }
        i += 1;
    }
    false
}

// --- Places -------------------------------------------------------------------------

/// White space between the tokens of a JSON text.
pub open spec fn is_blank(c: char) -> bool {
    c == ' ' || c == '\t' || c == '\n' || c == '\r'
}

/// The first place at or after `i` that is not blank, or the end.
pub open spec fn past_blanks(t: Seq<char>, i: int) -> int
    decreases t.len() - i,
{
    if 0 <= i < t.len() && is_blank(t[i]) {
        past_blanks(t, i + 1)
    } else {
        i
    }
}

fn skip_blanks(t: &Vec<char>, i: usize) -> (r: usize)
    requires
        i <= t.len(),
    ensures
        i <= r <= t.len(),
        r == past_blanks(t@, i as int),
{
    let mut k: usize = i;
    while k < t.len() && (t[k] == ' ' || t[k] == '\t' || t[k] == '\n' || t[k] == '\r')
        invariant
            i <= k <= t.len(),
            past_blanks(t@, i as int) == past_blanks(t@, k as int),
        decreases t.len() - k,
    {
        k += 1;
    }
    k
}

/// Where the line that holds the place `i` starts.
pub open spec fn line_start(t: Seq<char>, i: int) -> int
    decreases i,
{
    if i <= 0 {
        0
    } else if t[i - 1] == '\n' {
        i
    } else {
        line_start(t, i - 1)
    }
}

/// How many lines end before the place `i`.
pub open spec fn lines_before(t: Seq<char>, i: int) -> nat
    decreases i,
{
    if i <= 0 {
        0
    } else {
        lines_before(t, i - 1) + (if t[i - 1] == '\n' {
            1nat
        } else {
            0nat
        })
    }
}

/// A place in words: its line, and its column in bytes.
pub open spec fn place_text(t: Seq<char>, i: int) -> Seq<char> {
    " at line "@ + decimal_text(lines_before(t, i) + 1) + " column "@ + decimal_text(
        (byte_len(t.take(i)) - byte_len(t.take(line_start(t, i)))) as nat,
    )
}

proof fn line_start_bounds(t: Seq<char>, i: int)
    requires
        0 <= i <= t.len(),
    ensures
        0 <= line_start(t, i) <= i,
    decreases i,
{
    if i > 0 && t[i - 1] != '\n' {
        line_start_bounds(t, i - 1);
    }
}

/// Says where a place is. `from` is a place before it that ends no line.
fn place(text: &str, chars: &Vec<char>, from: usize, i: usize) -> (r: String)
    requires
        chars@ == text@,
        from < i <= chars.len(),
        chars@[from as int] != '\n',
    ensures
        r@ == place_text(text@, i as int),
{
    let ghost t = text@;
    let offsets = byte_offsets(text, chars);
    let mut lines: u64 = 0;
    let mut k: usize = 0;
    while k < i
        invariant
            chars@ == t,
            k <= i <= chars.len(),
            from < i,
            chars@[from as int] != '\n',
            lines == lines_before(t, k as int),
            lines + (if k > from {
                1int
            } else {
                0int
            }) <= k,
        decreases i - k,
    {
        if chars[k] == '\n' {
            lines += 1;
        }
        k += 1;
    }
    let mut start: usize = i;
    while start > 0 && chars[start - 1] != '\n'
        invariant
            chars@ == t,
            start <= i <= chars.len(),
            line_start(t, i as int) == line_start(t, start as int),
        decreases start,
    {
        start -= 1;
    }
    proof {
        line_start_bounds(t, i as int);
        assert(t.take(start as int) =~= t.take(i as int).take(start as int));
        byte_len_prefix(t.take(i as int), start as int);
    }
    let mut out = " at line ".to_owned();
    out.append(decimal(lines + 1).as_str());
    out.append(" column ");
    out.append(decimal((offsets[i] - offsets[start]) as u64).as_str());
    out
}

/// A text of blanks that ends where `s` ends: on the same line, in the same column.
pub open spec fn blanked(s: Seq<char>) -> Seq<char>
    decreases s.len(),
{
    if s.len() == 0 {
        Seq::empty()
    } else {
        blanked(s.drop_last()) + (if s.last() == '\n' {
            seq!['\n']
        } else {
            Seq::new(byte_len(seq![s.last()]), |i: int| ' ')
        })
    }
}

/// One member of an object alone, at its place. `sep` is the sign before it: the opening
/// brace or a comma.
pub open spec fn alone(t: Seq<char>, sep: int, end: int) -> Seq<char> {
    blanked(t.take(sep)) + seq!['{'] + t.subrange(sep + 1, end)
}

fn put_alone(t: &Vec<char>, sep: usize, end: usize) -> (r: String)
    requires
        sep < end <= t.len(),
    ensures
        r@ == alone(t@, sep as int, end as int),
{
    let mut out = String::new();
    let mut i: usize = 0;
    assert(t@.take(0) =~= Seq::<char>::empty());
    while i < sep
        invariant
            i <= sep < t.len(),
            out@ == blanked(t@.take(i as int)),
        decreases sep - i,
    {
        let c = t[i];
        let ghost before = out@;
        if c == '\n' {
            out.push('\n');
        } else {
            let w: usize = char_width(c);
            let mut k: usize = 0;
            assert(before + Seq::new(0, |j: int| ' ') =~= before);
            while k < w
                invariant
                    k <= w,
                    out@ == before + Seq::new(k as nat, |j: int| ' '),
                decreases w - k,
            {
                out.push(' ');
                k += 1;
                assert(out@ =~= before + Seq::new(k as nat, |j: int| ' '));
            }
        }
        i += 1;
        proof {
            let now = t@.take(i as int);
            assert(now.drop_last() =~= t@.take(i - 1));
            assert(now.last() == c);
            assert(out@ =~= blanked(now));
        }
    }
    out.push('{');
    let rest = text_of(t, sep + 1, end);
    out.append(rest.as_str());
    assert(out@ =~= alone(t@, sep as int, end as int));
    out
}

// --- Objects ------------------------------------------------------------------------

/// The refusal of a field that stands twice. It is found when the name has been read, so
/// its place is that of the next sign.
pub open spec fn repeated(t: Seq<char>, name: Seq<char>, next: int) -> Seq<char> {
    "duplicate field `"@ + name + "`"@ + place_text(
        t,
        if next < t.len() && t[next] == '}' {
            next + 1
        } else {
            next
        },
    )
}

/// The value of an object with one member.
pub open spec fn sole_value(parsed: JsonModel) -> Option<JsonModel> {
    match parsed {
        JsonModel::Object(members) => if members.len() > 0 {
            Some(members[0].1)
        } else {
            None
        },
        _ => None,
    }
}

/// The fields with one more, given what the parser made of its member.
pub open spec fn with_field(
    fields: Seq<(Seq<char>, JsonModel)>,
    name: Seq<char>,
    parsed: Result<JsonModel, Seq<char>>,
) -> Result<Seq<(Seq<char>, JsonModel)>, Seq<char>> {
    match parsed {
        Err(e) => Err(e),
        Ok(j) => match sole_value(j) {
            Some(v) => Ok(fields.push((name, v))),
            None => Ok(fields),
        },
    }
}

/// The fields among the members from the sign `sep` on, behind those read already, or
/// the first fault that only fields have. Where the text is no object, this comes as far
/// as it is one.
pub open spec fn fields_from(
    t: Seq<char>,
    sep: int,
    fields: Seq<(Seq<char>, JsonModel)>,
) -> Result<Seq<(Seq<char>, JsonModel)>, Seq<char>>
    decreases t.len() - sep,
{
    let k0 = past_blanks(t, sep + 1);
    let key = leading_text(t.skip(k0));
    if sep < 0 || k0 <= sep || k0 >= t.len() || t[k0] != '"' || key is None || key->Some_0.len() == 0 || k0
        + key->Some_0.len() > t.len() {
        Ok(fields)
    } else {
        match json_of(key->Some_0) {
            Ok(JsonModel::Text(name)) => {
                let c = past_blanks(t, k0 + key->Some_0.len());
                if is_field(name) && was_read(fields, name) {
                    Err(repeated(t, name, c))
                } else if c >= t.len() || t[c] != ':' {
                    Ok(fields)
                } else {
                    let v0 = past_blanks(t, c + 1);
                    match leading_text(t.skip(v0)) {
                        None => if is_field(name) {
                            match json_of(alone(t, sep, t.len() as int)) {
                                Err(e) => Err(e),
                                Ok(_) => Ok(fields),
                            }
                        } else {
                            Ok(fields)
                        },
                        Some(v) => {
                            let end = v0 + v.len();
                            let next = past_blanks(t, end);
                            if end <= sep || end > t.len() || next <= sep {
                                Ok(fields)
                            } else {
                                match if is_field(name) {
                                    with_field(
                                        fields,
                                        name,
                                        json_of(alone(t, sep, end) + seq!['}']),
                                    )
                                } else {
                                    Ok(fields)
                                } {
                                    Err(e) => Err(e),
                                    Ok(more) => if next < t.len() && t[next] == ',' {
                                        fields_from(t, next, more)
                                    } else {
                                        Ok(more)
                                    },
                                }
                            }
                        },
                    }
                }
            },
            _ => Ok(fields),
        }
    }
}

/// Adds a field, given what the parser made of its member alone.
pub fn take_field(fields: &mut Vec<(String, Json)>, name: &str, parsed: Result<Json, String>) -> (r:
    Result<(), String>)
    ensures
        match (
            with_field(
                members_model(old(fields)@),
                name@,
                match parsed {
                    Ok(j) => Ok(json_model(j)),
                    Err(e) => Err(e@),
                },
            ),
            r,
        ) {
            (Ok(m), Ok(_)) => members_model(final(fields)@) == m,
            (Err(m), Err(e)) => e@ == m && final(fields)@ == old(fields)@,
            _ => false,
        },
{
    match parsed {
        Err(e) => Err(e),
        Ok(j) => {
            let ghost model = json_model(j);
            match j {
                Json::Object(members) => {
                    let mut members = members;
                    let ghost ms = members_model(members@);
                    assert(model->Object_0 =~= ms);
                    if members.len() > 0 {
                        let (_, v) = members.remove(0);
                        assert(json_model(v) == ms[0].1);
                        add_member(fields, name, v);
                    }
                },
                _ => {},
            }
            Ok(())
        },
    }
}

fn repeated_field(text: &str, t: &Vec<char>, name: &str, open: usize, next: usize) -> (r: String)
    requires
        t@ == text@,
        open < next <= t.len(),
        t@[open as int] != '\n',
    ensures
        r@ == repeated(text@, name@, next as int),
{
    let at: usize = if next < t.len() && t[next] == '}' {
        next + 1
    } else {
        next
    };
    let mut out = "duplicate field `".to_owned();
    out.append(name);
    out.append("`");
    out.append(place(text, t, open, at).as_str());
    out
}

fn read_fields(text: &str, t: &Vec<char>, open: usize) -> (r: Result<Vec<(String, Json)>, String>)
    requires
        t@ == text@,
        open < t.len(),
        t@[open as int] != '\n',
    ensures
        match (fields_from(text@, open as int, Seq::empty()), r) {
            (Ok(m), Ok(v)) => members_model(v@) == m,
            (Err(m), Err(e)) => e@ == m,
            _ => false,
        },
{
    let n: usize = t.len();
    let ghost s = text@;
    let mut fields: Vec<(String, Json)> = Vec::new();
    let mut sep: usize = open;
    assert(members_model(fields@) =~= Seq::empty());
    loop
        invariant
            t@ == s,
            s == text@,
            n == t.len(),
            open <= sep < n,
            t@[open as int] != '\n',
            fields_from(s, open as int, Seq::empty()) == fields_from(
                s,
                sep as int,
                members_model(fields@),
            ),
        decreases n - sep,
    {
        let k0 = skip_blanks(t, sep + 1);
        if k0 >= n || t[k0] != '"' {
            return Ok(fields);
        }
        let rest = text_of(t, k0, n);
        assert(rest@ =~= s.skip(k0 as int));
        let key = match leading_value(rest.as_str()) {
            Some(key) => key,
            None => {
                return Ok(fields);
            },
        };
        let width: usize = chars_of(key.as_str()).len();
        if width == 0 || width > n - k0 {
            return Ok(fields);
        }
        let name = match parse_json(key.as_str()) {
            Ok(Json::Text(name)) => name,
            _ => {
                return Ok(fields);
            },
        };
        let c = skip_blanks(t, k0 + width);
        let known = field(name.as_str());
        if known && read_before(&fields, name.as_str()) {
            return Err(repeated_field(text, t, name.as_str(), open, c));
        }
        if c >= n || t[c] != ':' {
            return Ok(fields);
        }
        let v0 = skip_blanks(t, c + 1);
        let tail = text_of(t, v0, n);
        assert(tail@ =~= s.skip(v0 as int));
        let value = match leading_value(tail.as_str()) {
            Some(value) => value,
            None => {
                if known {
                    if let Err(e) = parse_json(put_alone(t, sep, n).as_str()) {
                        return Err(e);
                    }
                }
                return Ok(fields);
            },
        };
        let size: usize = chars_of(value.as_str()).len();
        if size > n - v0 {
            return Ok(fields);
        }
        let end = v0 + size;
        let next = skip_blanks(t, end);
        if known {
            let mut member = put_alone(t, sep, end);
            member.push('}');
            assert(member@ =~= alone(s, sep as int, end as int) + seq!['}']);
            if let Err(e) = take_field(
                &mut fields,
                name.as_str(),
                parse_json(member.as_str()),
            ) {
                return Err(e);
            }
        }
        if !(next < n && t[next] == ',') {
            return Ok(fields);
        }
        sep = next;
    }
}

// --- Manifests ----------------------------------------------------------------------

/// The fields of a list: the first item is the first field, and so on.
pub open spec fn listed_fields(items: Seq<JsonModel>) -> Seq<(Seq<char>, JsonModel)> {
    Seq::new(items.len(), |i: int| (field_name(i), items[i]))
}

/// A list as a manifest, given what the parser makes of it as a value and as three
/// values. A list that is too short is none of three values and still a manifest.
pub open spec fn list_doc(
    parsed: Result<JsonModel, Seq<char>>,
    triple: Option<Seq<char>>,
) -> Result<JsonModel, Seq<char>> {
    match (parsed, triple) {
        (Ok(JsonModel::List(items)), None) => Ok(JsonModel::Object(listed_fields(items))),
        (Ok(JsonModel::List(items)), Some(e)) => if items.len() <= 3 {
            Ok(JsonModel::Object(listed_fields(items)))
        } else {
            Err(e)
        },
        (Ok(other), _) => Ok(other),
        (Err(e), Some(f)) => if "invalid length "@.is_prefix_of(f) {
            Err(e)
        } else {
            Err(f)
        },
        (Err(e), None) => Err(e),
    }
}

/// Makes a manifest of a list.
pub fn list_manifest(parsed: Result<Json, String>, triple: Option<String>) -> (r: Result<
    Json,
    String,
>)
    ensures
        match (
            list_doc(
                match parsed {
                    Ok(j) => Ok(json_model(j)),
                    Err(e) => Err(e@),
                },
                triple.deep_view(),
            ),
            r,
        ) {
            (Ok(m), Ok(j)) => json_model(j) == m,
            (Err(m), Err(e)) => e@ == m,
            _ => false,
        },
{
    let j = match parsed {
        Err(e) => {
            return match triple {
                Some(f) => if starts_with(f.as_str(), "invalid length ") {
                    Err(e)
                } else {
                    Err(f)
                },
                None => Err(e),
            };
        },
        Ok(j) => j,
    };
    let ghost model = json_model(j);
    match j {
        Json::List(items) => {
            let ghost all = items_model(items@);
            assert(model->List_0 =~= all);
            if let Some(e) = triple {
                if items.len() > 3 {
                    return Err(e);
                }
            }
            let mut items = items;
            let total: usize = items.len();
            let mut members: Vec<(String, Json)> = Vec::new();
            let mut i: usize = 0;
            let ghost want = listed_fields(all);
            assert(members_model(members@) =~= want.take(0));
            assert(items_model(items@) =~= all.skip(0));
            while items.len() > 0
                invariant
                    want == listed_fields(all),
                    i + items.len() == total,
                    total == all.len(),
                    items_model(items@) == all.skip(i as int),
                    members_model(members@) == want.take(i as int),
                decreases items.len(),
            {
                let ghost left = items_model(items@);
                let ghost prior = items@;
                let v = items.remove(0);
                assert(json_model(v) == left[0]);
                assert(items@ =~= prior.skip(1));
                assert forall|k: int| 0 <= k < items@.len() implies items_model(
                    items@,
                )[k] == all.skip(i + 1)[k] by {
                    assert(items@[k] == prior[k + 1]);
                    assert(left[k + 1] == all.skip(i as int)[k + 1]);
                }
                add_member(&mut members, field_at(i), v);
                i += 1;
                assert(items_model(items@) =~= all.skip(i as int));
                assert(members_model(members@) =~= want.take(i as int));
            }
            assert(want.take(i as int) =~= want);
            Ok(object(members))
        },
        other => Ok(other),
    }
}

/// The last place before `i` where `p` stands in `s`.
pub open spec fn last_found(s: Seq<char>, p: Seq<char>, i: int) -> Option<int>
    decreases i,
{
    if i <= 0 {
        None
    } else if occurs_at(s, p, i - 1) {
        Some(i - 1)
    } else {
        last_found(s, p, i - 1)
    }
}

/// The parser's complaint that a value is no map, as one that it is no manifest.
pub open spec fn retold(e: Seq<char>) -> Seq<char> {
    match last_found(e, ", expected a map"@, e.len() as int) {
        Some(k) => e.take(k) + ", expected struct Manifest"@ + e.skip(
            k + ", expected a map"@.len(),
        ),
        None => e,
    }
}

/// Tells the parser's complaint that a value is no map as one that it is no manifest.
pub fn retell(e: &str) -> (r: String)
    ensures
        r@ == retold(e@),
{
    let chars = chars_of(e);
    let n: usize = chars.len();
    let old_words = chars_of(", expected a map");
    let ghost p = ", expected a map"@;
    let mut i: usize = n;
    while i > 0
        invariant
            chars@ == e@,
            n == chars.len(),
            old_words@ == p,
            p == ", expected a map"@,
            i <= n,
            last_found(e@, p, n as int) == last_found(e@, p, i as int),
        decreases i,
    {
        let k: usize = i - 1;
        assert(e@.take(n as int) =~= e@);
        if occurs(&chars, n, &old_words, k) {
            let mut out = text_of(&chars, 0, k);
            out.append(", expected struct Manifest");
            let tail = text_of(&chars, k + old_words.len(), n);
            assert(tail@ =~= e@.skip(k + p.len()));
            out.append(tail.as_str());
            assert(out@ =~= retold(e@));
            return out;
        }
        i -= 1;
    }
    e.to_owned()
}

/// What a text holds as a manifest, or what is wrong with it.
pub open spec fn manifest_doc(text: Seq<char>) -> Result<JsonModel, Seq<char>> {
    let open = past_blanks(text, 0);
    if open < text.len() && text[open] == '{' {
        match (fields_from(text, open, Seq::empty()), map_fault(text)) {
            (Err(e), _) => Err(e),
            (Ok(_), Some(e)) => Err(e),
            (Ok(fields), None) => Ok(JsonModel::Object(fields)),
        }
    } else if open < text.len() && text[open] == '[' {
        list_doc(json_of(text), triple_fault(text))
    } else {
        match map_fault(text) {
            Some(e) => Err(retold(e)),
            None => Ok(JsonModel::Object(Seq::empty())),
        }
    }
}

/// Reads a manifest.
pub fn parse_manifest(text: &str) -> (r: Result<Json, String>)
    ensures
        match (manifest_doc(text@), r) {
            (Ok(m), Ok(j)) => json_model(j) == m,
            (Err(m), Err(e)) => e@ == m,
            _ => false,
        },
{
    let chars = chars_of(text);
    let open = skip_blanks(&chars, 0);
    if open < chars.len() && chars[open] == '{' {
        let fields = match read_fields(text, &chars, open) {
            Ok(fields) => fields,
            Err(e) => {
                return Err(e);
            },
        };
        match check_map(text) {
            Some(e) => Err(e),
            None => Ok(object(fields)),
        }
    } else if open < chars.len() && chars[open] == '[' {
        list_manifest(parse_json(text), check_triple(text))
    } else {
        match check_map(text) {
            Some(e) => Err(retell(e.as_str())),
            None => {
                let none: Vec<(String, Json)> = Vec::new();
                assert(members_model(none@) =~= Seq::empty());
                Ok(object(none))
            },
        }
    }
}

// --- Laws ---------------------------------------------------------------------------

/// Only fields that are read are kept, and none of them twice.
pub proof fn fields_stand_once(t: Seq<char>, sep: int, fields: Seq<(Seq<char>, JsonModel)>)
    requires
        forall|i: int| 0 <= i < fields.len() ==> is_field((#[trigger] fields[i]).0),
        forall|i: int, j: int|
            0 <= i < j < fields.len() ==> (#[trigger] fields[i]).0 != (#[trigger] fields[j]).0,
        fields_from(t, sep, fields) is Ok,
    ensures
        ({
            let all = fields_from(t, sep, fields)->Ok_0;
            &&& forall|i: int| 0 <= i < all.len() ==> is_field((#[trigger] all[i]).0)
            &&& forall|i: int, j: int|
                0 <= i < j < all.len() ==> (#[trigger] all[i]).0 != (#[trigger] all[j]).0
        }),
    decreases t.len() - sep,
{
    let k0 = past_blanks(t, sep + 1);
    let key = leading_text(t.skip(k0));
    if sep < 0 || k0 <= sep || k0 >= t.len() || t[k0] != '"' || key is None || key->Some_0.len() == 0 || k0
        + key->Some_0.len() > t.len() {
    } else if let Ok(JsonModel::Text(name)) = json_of(key->Some_0) {
        let c = past_blanks(t, k0 + key->Some_0.len());
        let v0 = past_blanks(t, c + 1);
        if c < t.len() && t[c] == ':' && leading_text(t.skip(v0)) is Some {
            let end = v0 + leading_text(t.skip(v0))->Some_0.len();
            let next = past_blanks(t, end);
            if sep < end <= t.len() && sep < next {
                let more = if is_field(name) {
                    with_field(fields, name, json_of(alone(t, sep, end) + seq!['}']))->Ok_0
                } else {
                    fields
                };
                assert forall|i: int, j: int| 0 <= i < j < more.len() implies (
                #[trigger] more[i]).0 != (#[trigger] more[j]).0 by {
                    if j >= fields.len() {
                        assert(!was_read(fields, name));
                        assert(fields[i].0 != name);
                    }
                }
                if next < t.len() && t[next] == ',' {
                    fields_stand_once(t, next, more);
                }
            }
        }
    }
}

/// What stands before a member is blanked out without moving it: the blanks take as many
/// bytes and as many lines, and the last line as many bytes, as what they stand for.
pub proof fn blanks_keep_the_place(s: Seq<char>)
    ensures
        byte_len(blanked(s)) == byte_len(s),
        lines_before(blanked(s), blanked(s).len() as int) == lines_before(s, s.len() as int),
        byte_len(blanked(s).take(line_start(blanked(s), blanked(s).len() as int))) == byte_len(
            s.take(line_start(s, s.len() as int)),
        ),
        forall|i: int| 0 <= i < blanked(s).len() ==> is_blank(#[trigger] blanked(s)[i]),
    decreases s.len(),
{
    if s.len() == 0 {
        assert(blanked(s) =~= s);
    } else {
        let front = s.drop_last();
        let c = s.last();
        let b = blanked(front);
        let t = blanked(s);
        let w = byte_len(seq![c]);
        blanks_keep_the_place(front);
        assert(s =~= front + seq![c]);
        byte_len_concat(front, seq![c]);
        lines_before_within(s, front, front.len() as int);
        line_start_within(s, front, front.len() as int);
        line_start_bounds(front, front.len() as int);
        line_start_bounds(b, b.len() as int);
        if c == '\n' {
            assert(t =~= b + seq!['\n']);
            byte_len_concat(b, seq!['\n']);
            lines_before_within(t, b, b.len() as int);
            assert(t.take(t.len() as int) =~= t);
            assert(s.take(s.len() as int) =~= s);
        } else {
            let blanks = Seq::new(w, |i: int| ' ');
            assert(t =~= b + blanks);
            byte_len_concat(b, blanks);
            spaces_are_bytes(w);
            lines_before_within(t, b, b.len() as int);
            line_start_within(t, b, b.len() as int);
            spaces_end_no_line(b, w, w as int);
            let at = line_start(b, b.len() as int);
            assert(t.take(at) =~= b.take(at));
            let from = line_start(front, front.len() as int);
            assert(s.take(from) =~= front.take(from));
        }
        assert forall|i: int| 0 <= i < t.len() implies is_blank(#[trigger] t[i]) by {
            if i < b.len() {
                assert(t[i] == b[i]);
            }
        }
    }
}

proof fn spaces_are_bytes(w: nat)
    ensures
        byte_len(Seq::new(w, |i: int| ' ')) == w,
    decreases w,
{
    let all = Seq::new(w, |i: int| ' ');
    if w == 0 {
        assert(all =~= Seq::<char>::empty());
    } else {
        spaces_are_bytes((w - 1) as nat);
        assert(all.drop_first() =~= Seq::new((w - 1) as nat, |i: int| ' '));
        vstd::utf8::char_is_scalar(' ');
    }
}

proof fn spaces_end_no_line(b: Seq<char>, w: nat, k: int)
    requires
        0 <= k <= w,
    ensures
        ({
            let t = b + Seq::new(w, |i: int| ' ');
            &&& lines_before(t, b.len() + k) == lines_before(t, b.len() as int)
            &&& line_start(t, b.len() + k) == line_start(t, b.len() as int)
        }),
    decreases k,
{
    if k > 0 {
        spaces_end_no_line(b, w, k - 1);
    }
}

proof fn lines_before_within(t: Seq<char>, b: Seq<char>, i: int)
    requires
        b.is_prefix_of(t),
        0 <= i <= b.len(),
    ensures
        lines_before(t, i) == lines_before(b, i),
    decreases i,
{
    if i > 0 {
        assert(t[i - 1] == b[i - 1]);
        lines_before_within(t, b, i - 1);
    }
}

proof fn line_start_within(t: Seq<char>, b: Seq<char>, i: int)
    requires
        b.is_prefix_of(t),
        0 <= i <= b.len(),
    ensures
        line_start(t, i) == line_start(b, i),
    decreases i,
{
    if i > 0 {
        assert(t[i - 1] == b[i - 1]);
        line_start_within(t, b, i - 1);
    }
}

/// The line that holds a place starts behind the last newline before it, and the lines
/// before it are as many as the newlines.
pub proof fn a_line_starts_behind_a_newline(t: Seq<char>, i: int)
    requires
        0 <= i <= t.len(),
    ensures
        0 <= line_start(t, i) <= i,
        line_start(t, i) > 0 ==> t[line_start(t, i) - 1] == '\n',
        forall|j: int| line_start(t, i) <= j < i ==> #[trigger] t[j] != '\n',
        lines_before(t, i) == t.take(i).to_multiset().count('\n'),
    decreases i,
{
    t.take(i).to_multiset_ensures();
    if i > 0 {
        a_line_starts_behind_a_newline(t, i - 1);
        t.take(i - 1).to_multiset_ensures();
        assert(t.take(i) =~= t.take(i - 1).push(t[i - 1]));
    } else {
        assert(t.take(0) =~= Seq::<char>::empty());
        assert(Seq::<char>::empty().to_multiset().count('\n') == 0);
    }
}

/// A manifest that is spelled as a list has its fields in their order: the first item is
/// `bin`, the second `directories`, the third `scripts`; no other item is a field that is
/// read.
pub proof fn a_list_spells_the_fields_in_order(items: Seq<JsonModel>)
    requires
        items.len() <= 3,
    ensures
        ({
            let doc = list_doc(Ok(JsonModel::List(items)), None);
            &&& doc is Ok
            &&& member_of(doc->Ok_0, "bin"@) == (if items.len() > 0 {
                Some(items[0])
            } else {
                None
            })
            &&& member_of(doc->Ok_0, "directories"@) == (if items.len() > 1 {
                Some(items[1])
            } else {
                None
            })
            &&& member_of(doc->Ok_0, "scripts"@) == (if items.len() > 2 {
                Some(items[2])
            } else {
                None
            })
        }),
{
    reveal_strlit("bin");
    reveal_strlit("directories");
    reveal_strlit("scripts");
    reveal_with_fuel(member_value, 5);
    assert("bin"@.len() == 3 && "directories"@.len() == 11 && "scripts"@.len() == 7);
}

/// A complaint that a value is no map is told as one that it is no manifest, and keeps what
/// stands around the words; any other complaint stays as it is.
pub proof fn only_the_map_is_retold(before: Seq<char>, behind: Seq<char>, other: Seq<char>)
    requires
        !behind.contains(','),
        !stands_in(other, ", expected a map"@),
    ensures
        retold(before + ", expected a map"@ + behind) == before + ", expected struct Manifest"@
            + behind,
        retold(other) == other,
{
    reveal_strlit(", expected a map");
    let p = ", expected a map"@;
    let e = before + p + behind;
    let k = before.len() as int;
    assert(p[0] == ',');
    assert(forall|i: int| 0 < i < p.len() ==> #[trigger] p[i] != ',');
    assert(e.subrange(k, k + p.len()) =~= p);
    assert forall|j: int| k < j < e.len() implies !occurs_at(e, p, j) by {
        if occurs_at(e, p, j) {
            assert(e.subrange(j, j + p.len())[0] == e[j]);
            if j < k + p.len() {
                assert(e[j] == p[j - k]);
            } else {
                assert(e[j] == behind[j - k - p.len()]);
                assert(behind.contains(behind[j - k - p.len()]));
            }
        }
    }
    last_found_is(e, p, e.len() as int, k);
    assert(e.take(k) =~= before);
    assert(e.skip(k + p.len()) =~= behind);
    nothing_is_found(other, p, other.len() as int);
}

proof fn last_found_is(s: Seq<char>, p: Seq<char>, i: int, k: int)
    requires
        0 <= k < i,
        occurs_at(s, p, k),
        forall|j: int| k < j < i ==> !occurs_at(s, p, j),
    ensures
        last_found(s, p, i) == Some(k),
    decreases i,
{
    if i - 1 > k {
        last_found_is(s, p, i - 1, k);
    }
}

proof fn nothing_is_found(s: Seq<char>, p: Seq<char>, i: int)
    requires
        !stands_in(s, p),
    ensures
        last_found(s, p, i) is None,
    decreases i,
{
    if i > 0 {
        nothing_is_found(s, p, i - 1);
    }
}

} // verus!
