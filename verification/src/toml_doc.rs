//! TOML documents as plain values, and the plain lines a document can be written in.

use vstd::prelude::*;

use crate::dict::{value_from, with_entry};
use crate::lock::types::Table;
use crate::text::same;

verus! {

/// A TOML value.
#[derive(Debug, PartialEq)]
pub enum Toml {
    Text(String),
    Flag(bool),
    List(Vec<Toml>),
    /// In key order.
    Table(Vec<(String, Toml)>),
    /// A number or a date. Nothing reads its value.
    Other,
}

/// The mathematical value of a [`Toml`].
pub enum TomlModel {
    Text(Seq<char>),
    Flag(bool),
    List(Seq<TomlModel>),
    Table(Table<TomlModel>),
    Other,
}

/// What a TOML value stands for.
pub open spec fn toml_model(t: Toml) -> TomlModel
    decreases t,
{
    match t {
        Toml::Text(s) => TomlModel::Text(s@),
        Toml::Flag(b) => TomlModel::Flag(b),
        Toml::List(items) => TomlModel::List(
            Seq::new(
                items@.len(),
                |i: int|
                    if 0 <= i < items@.len() {
                        toml_model(items@[i])
                    } else {
                        arbitrary()
                    },
            ),
        ),
        Toml::Table(entries) => TomlModel::Table(
            Seq::new(
                entries@.len(),
                |i: int|
                    if 0 <= i < entries@.len() {
                        (entries@[i].0@, toml_model(entries@[i].1))
                    } else {
                        arbitrary()
                    },
            ),
        ),
        Toml::Other => TomlModel::Other,
    }
}

/// What the entries of a table stand for.
pub open spec fn entries_model(entries: Seq<(String, Toml)>) -> Table<TomlModel> {
    Seq::new(entries.len(), |i: int| (entries[i].0@, toml_model(entries[i].1)))
}

/// A table is its entries.
pub proof fn table_is_entries(entries: Vec<(String, Toml)>)
    ensures
        toml_model(Toml::Table(entries)) == TomlModel::Table(entries_model(entries@)),
{
    assert(toml_model(Toml::Table(entries))->Table_0 =~= entries_model(entries@));
}

// --- Plain documents --------------------------------------------------------------------

/// A line of a plain document.
pub enum Line {
    /// A blank line or a comment.
    Note(Seq<char>),
    /// `key = value`, with spaces to align the equals sign.
    Entry { key: Seq<char>, pad: Seq<char>, value: TomlModel },
}

/// The lines under one header. Without a name they open the document.
pub struct Section {
    pub name: Seq<Seq<char>>,
    pub lines: Seq<Line>,
}

/// A value as it is written.
pub open spec fn value_text(v: TomlModel) -> Seq<char> {
    match v {
        TomlModel::Text(s) => "\""@ + s + "\""@,
        TomlModel::Flag(true) => "true"@,
        TomlModel::Flag(false) => "false"@,
        _ => "[]"@,
    }
}

pub open spec fn line_text(line: Line) -> Seq<char> {
    match line {
        Line::Note(s) => s + "\n"@,
        Line::Entry { key, pad, value } => key + pad + " = "@ + value_text(value) + "\n"@,
    }
}

/// The first `n` lines.
pub open spec fn lines_text(lines: Seq<Line>, n: int) -> Seq<char>
    decreases n,
{
    if n <= 0 {
        Seq::empty()
    } else {
        lines_text(lines, n - 1) + line_text(lines[n - 1])
    }
}

pub open spec fn header_text(name: Seq<Seq<char>>) -> Seq<char> {
    if name.len() == 0 {
        Seq::empty()
    } else if name.len() == 1 {
        "["@ + name[0] + "]\n"@
    } else {
        "["@ + name[0] + "."@ + name[1] + "]\n"@
    }
}

pub open spec fn section_text(s: Section) -> Seq<char> {
    header_text(s.name) + lines_text(s.lines, s.lines.len() as int)
}

/// The first `n` sections.
pub open spec fn sections_text(doc: Seq<Section>, n: int) -> Seq<char>
    decreases n,
{
    if n <= 0 {
        Seq::empty()
    } else {
        sections_text(doc, n - 1) + section_text(doc[n - 1])
    }
}

/// A document as it is written.
pub open spec fn doc_text(doc: Seq<Section>) -> Seq<char> {
    sections_text(doc, doc.len() as int)
}

/// A character that can be a bare key or part of one.
pub open spec fn bare_char(c: char) -> bool {
    'a' <= c <= 'z' || 'A' <= c <= 'Z' || '0' <= c <= '9' || c == '-' || c == '_'
}

/// A key that needs no quotes.
pub open spec fn is_bare(s: Seq<char>) -> bool {
    s.len() > 0 && forall|i: int| 0 <= i < s.len() ==> bare_char(#[trigger] s[i])
}

/// A text without control characters.
pub open spec fn is_printed(s: Seq<char>) -> bool {
    forall|i: int| 0 <= i < s.len() ==> ' ' <= #[trigger] s[i] && s[i] != '\u{7f}'
}

/// A text that stands between quotes as it is.
pub open spec fn is_unescaped(s: Seq<char>) -> bool {
    is_printed(s) && !s.contains('"') && !s.contains('\\')
}

pub open spec fn plain_line(line: Line) -> bool {
    match line {
        Line::Note(s) => is_printed(s) && (s.len() > 0 ==> s[0] == '#'),
        Line::Entry { key, pad, value } => {
            &&& is_bare(key)
            &&& forall|i: int| 0 <= i < pad.len() ==> #[trigger] pad[i] == ' '
            &&& match value {
                TomlModel::Text(s) => is_unescaped(s),
                TomlModel::Flag(_) => true,
                TomlModel::List(items) => items.len() == 0,
                _ => false,
            }
        },
    }
}

/// Two lines that set one key.
pub open spec fn same_key(a: Line, b: Line) -> bool {
    a is Entry && b is Entry && a->key == b->key
}

pub open spec fn plain_section(s: Section) -> bool {
    &&& s.name.len() <= 2
    &&& forall|i: int| 0 <= i < s.name.len() ==> is_bare(#[trigger] s.name[i])
    &&& forall|i: int| 0 <= i < s.lines.len() ==> plain_line(#[trigger] s.lines[i])
    &&& forall|i: int, j: int|
        0 <= i < j < s.lines.len() ==> !same_key(#[trigger] s.lines[i], #[trigger] s.lines[j])
}

/// Two sections that can stand in one document: neither names what the other sets.
pub open spec fn sections_apart(a: Section, b: Section) -> bool {
    &&& b.name.len() > 0
    &&& if a.name.len() == 0 {
        forall|i: int|
            0 <= i < a.lines.len() && (#[trigger] a.lines[i]) is Entry ==> a.lines[i]->key
                != b.name[0]
    } else if a.name.len() == 2 && b.name.len() == 2 {
        a.name != b.name
    } else {
        a.name[0] != b.name[0]
    }
}

/// A document of comments, blank lines, headers of one or two bare names, and entries
/// with bare keys whose values are texts without escapes, flags or the empty list, in
/// which nothing is set twice.
pub open spec fn plain_doc(doc: Seq<Section>) -> bool {
    &&& forall|i: int| 0 <= i < doc.len() ==> plain_section(#[trigger] doc[i])
    &&& forall|i: int, j: int|
        0 <= i < j < doc.len() ==> sections_apart(#[trigger] doc[i], #[trigger] doc[j])
}

/// The table after the first `n` lines were entered into it.
pub open spec fn lines_table(
    start: Table<TomlModel>,
    lines: Seq<Line>,
    n: int,
) -> Table<TomlModel>
    decreases n,
{
    if n <= 0 {
        start
    } else {
        let before = lines_table(start, lines, n - 1);
        match lines[n - 1] {
            Line::Note(_) => before,
            Line::Entry { key, value, .. } => with_entry(before, key, value),
        }
    }
}

/// The table that stands under a key, or an empty one.
pub open spec fn table_under(t: Table<TomlModel>, key: Seq<char>) -> Table<TomlModel> {
    match value_from(t, key, 0) {
        Some(TomlModel::Table(inner)) => inner,
        _ => Seq::empty(),
    }
}

/// The table after a section was entered into it.
pub open spec fn with_section(t: Table<TomlModel>, s: Section) -> Table<TomlModel> {
    let n = s.lines.len() as int;
    if s.name.len() == 0 {
        lines_table(t, s.lines, n)
    } else if s.name.len() == 1 {
        with_entry(t, s.name[0], TomlModel::Table(lines_table(Seq::empty(), s.lines, n)))
    } else {
        with_entry(
            t,
            s.name[0],
            TomlModel::Table(
                with_entry(
                    table_under(t, s.name[0]),
                    s.name[1],
                    TomlModel::Table(lines_table(Seq::empty(), s.lines, n)),
                ),
            ),
        )
    }
}

/// What the first `n` sections of a plain document hold.
pub open spec fn doc_table(doc: Seq<Section>, n: int) -> Table<TomlModel>
    decreases n,
{
    if n <= 0 {
        Seq::empty()
    } else {
        with_section(doc_table(doc, n - 1), doc[n - 1])
    }
}

proof fn sections_agree(a: Seq<Section>, b: Seq<Section>, n: int)
    requires
        n <= a.len(),
        n <= b.len(),
        forall|i: int| 0 <= i < n ==> #[trigger] a[i] == b[i],
    ensures
        sections_text(a, n) == sections_text(b, n),
        doc_table(a, n) == doc_table(b, n),
    decreases n,
{
    if n > 0 {
        sections_agree(a, b, n - 1);
        assert(a[n - 1] == b[n - 1]);
    }
}

/// One section more.
pub proof fn section_pushed(doc: Seq<Section>, s: Section)
    ensures
        doc_text(doc.push(s)) == doc_text(doc) + section_text(s),
        doc_table(doc.push(s), doc.push(s).len() as int) == with_section(
            doc_table(doc, doc.len() as int),
            s,
        ),
{
    let n = doc.len() as int;
    sections_agree(doc.push(s), doc, n);
    assert(doc.push(s)[n] == s);
}

// --- Writing ----------------------------------------------------------------------------

/// Writes a comment, or a blank line.
pub fn write_note(out: &mut String, note: &str)
    ensures
        final(out)@ == old(out)@ + line_text(Line::Note(note@)),
{
    let ghost before = out@;
    out.append(note);
    out.append("\n");
    assert(out@ =~= before + line_text(Line::Note(note@)));
}

fn write_entry(out: &mut String, key: &str, pad: &str, value: &str)
    ensures
        final(out)@ == old(out)@ + (key@ + pad@ + " = "@ + value@ + "\n"@),
{
    let ghost before = out@;
    let mut line = key.to_owned();
    line.append(pad);
    line.append(" = ");
    line.append(value);
    line.append("\n");
    out.append(line.as_str());
    assert(out@ =~= before + (key@ + pad@ + " = "@ + value@ + "\n"@));
}

/// Writes a line that sets a key to a text.
pub fn write_text(out: &mut String, key: &str, pad: &str, value: &str)
    ensures
        final(out)@ == old(out)@ + line_text(
            Line::Entry { key: key@, pad: pad@, value: TomlModel::Text(value@) },
        ),
{
    let mut quoted = "\"".to_owned();
    quoted.append(value);
    quoted.append("\"");
    write_entry(out, key, pad, quoted.as_str());
}

/// Writes a line that sets a key to a flag.
pub fn write_flag(out: &mut String, key: &str, value: bool)
    ensures
        final(out)@ == old(out)@ + line_text(
            Line::Entry { key: key@, pad: Seq::empty(), value: TomlModel::Flag(value) },
        ),
{
    proof {
        reveal_strlit("");
        assert(""@ =~= Seq::empty());
    }
    if value {
        write_entry(out, key, "", "true");
    } else {
        write_entry(out, key, "", "false");
    }
}

/// Writes a line that sets a key to the empty list.
pub fn write_empty_list(out: &mut String, key: &str)
    ensures
        final(out)@ == old(out)@ + line_text(
            Line::Entry { key: key@, pad: Seq::empty(), value: TomlModel::List(Seq::empty()) },
        ),
{
    proof {
        reveal_strlit("");
        assert(""@ =~= Seq::empty());
    }
    write_entry(out, key, "", "[]");
}

/// Writes a section: the header, then its lines.
pub fn write_section(out: &mut String, name: &str, lines: &str)
    ensures
        final(out)@ == old(out)@ + (header_text(seq![name@]) + lines@),
{
    let mut text = "[".to_owned();
    text.append(name);
    text.append("]\n");
    text.append(lines);
    out.append(text.as_str());
    assert(text@ =~= header_text(seq![name@]) + lines@);
}

/// Writes a section with a name of two parts.
pub fn write_subsection(out: &mut String, name: &str, part: &str, lines: &str)
    ensures
        final(out)@ == old(out)@ + (header_text(seq![name@, part@]) + lines@),
{
    let mut text = "[".to_owned();
    text.append(name);
    text.append(".");
    text.append(part);
    text.append("]\n");
    text.append(lines);
    out.append(text.as_str());
    assert(text@ =~= header_text(seq![name@, part@]) + lines@);
}

// --- Reading ----------------------------------------------------------------------------

/// What a text holds as a TOML document, or what the parser says is wrong.
pub uninterp spec fn toml_of(text: Seq<char>) -> Result<TomlModel, Seq<char>>;

/// A plain document is read as the table that its lines enter.
pub open spec fn reads_plainly(text: Seq<char>, parsed: Result<TomlModel, Seq<char>>) -> bool {
    forall|doc: Seq<Section>|
        text == (#[trigger] doc_text(doc)) && plain_doc(doc) ==> parsed == Ok::<
            TomlModel,
            Seq<char>,
        >(TomlModel::Table(doc_table(doc, doc.len() as int)))
}

/// The result of a parse as a mathematical value.
pub open spec fn parsed_model(r: Result<Toml, String>) -> Result<TomlModel, Seq<char>> {
    match r {
        Ok(t) => Ok(toml_model(t)),
        Err(e) => Err(e@),
    }
}

#[verifier::external_type_specification]
#[verifier::external_body]
pub struct ExTomlValue(toml::Value);

/// `toml::Value`, variant by variant. Nothing is claimed of it by itself.
#[verifier::external_body]
fn toml_from(v: toml::Value) -> (r: Toml) {
    match v {
        toml::Value::String(s) => Toml::Text(s),
        toml::Value::Boolean(b) => Toml::Flag(b),
        toml::Value::Array(a) => Toml::List(a.into_iter().map(toml_from).collect()),
        toml::Value::Table(t) => {
            Toml::Table(t.into_iter().map(|(k, v)| (k, toml_from(v))).collect())
        },
        toml::Value::Integer(_) => Toml::Other,
        toml::Value::Float(_) => Toml::Other,
        toml::Value::Datetime(_) => Toml::Other,
    }
}

/// `toml::from_str`: the document, or the parser's message, is a function of the text.
/// Of a text that is a plain document, the format fixes the result: a header opens a
/// table, a line `key = value` sets the key in it, comments and blank lines count for
/// nothing, and a table holds its entries in the order of the keys. What any other text
/// holds is not said.
#[verifier::external_body]
pub(crate) fn parse_toml(text: &str) -> (r: Result<Toml, String>)
    ensures
        parsed_model(r) == toml_of(text@),
        reads_plainly(text@, parsed_model(r)),
{
    match toml::from_str::<toml::Value>(text) {
        Ok(v) => Ok(toml_from(v)),
        Err(e) => Err(e.to_string()),
    }
}

/// The value under a key, if there is one.
pub fn entry<'a>(entries: &'a Vec<(String, Toml)>, key: &str) -> (r: Option<&'a Toml>)
    ensures
        match r {
            Some(v) => value_from(entries_model(entries@), key@, 0) == Some(toml_model(*v)),
            None => value_from(entries_model(entries@), key@, 0) is None,
        },
{
    let ghost m = entries_model(entries@);
    let mut i: usize = 0;
    while i < entries.len()
        invariant
            m == entries_model(entries@),
            i <= entries.len(),
            value_from(m, key@, 0) == value_from(m, key@, i as int),
        decreases entries.len() - i,
    {
        assert(m[i as int] == (entries@[i as int].0@, toml_model(entries@[i as int].1)));
        if same(entries[i].0.as_str(), key) {
            return Some(&entries[i].1);
        }
        i += 1;
    }
    None
}

} // verus!
