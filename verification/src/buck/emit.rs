//! `BUCK`: one `npm_package` per entry that is handed on, and one
//! `node_modules_tree` per importer.

use vstd::prelude::*;

use crate::buck::format::{is_bin_name, literal, starlark_string, validate_bin_name};
use crate::buck::store::{Tree, TreeModel};
use crate::buck::HEADER;
use crate::dict::{lookup, lookup_is_map, Dict};
use crate::error::{BuckError, BuckErrorModel};
use crate::lock::snapshot_key::{target_name, target_text};
use crate::lock::types::Table;
use crate::packages::{Entry, EntryModel};
use crate::text::{
    chars_of, decimal, decimal_text, join_with, occurs_at, same, stands_between, stands_in,
    stands_inside,
};

verus! {

// --- What the file holds --------------------------------------------------------

/// An importer's path with `_` in place of `/`.
pub open spec fn underscored(s: Seq<char>) -> Seq<char> {
    Seq::new(
        s.len(),
        |i: int|
            if s[i] == '/' {
                '_'
            } else {
                s[i]
            },
    )
}

/// An importer path as a Buck target-name stem.
pub open spec fn importer_text(importer: Seq<char>) -> Seq<char> {
    if importer == "."@ {
        "root"@
    } else {
        underscored(importer)
    }
}

/// One entry of a dictionary on one line.
pub open spec fn pair_text(k: Seq<char>, v: Seq<char>) -> Seq<char> {
    literal(k) + ": "@ + literal(v)
}

/// The first `n` bins, separated by commas.
pub open spec fn bins_text(bins: Table<Seq<char>>, n: int) -> Seq<char>
    decreases n,
{
    if n <= 0 {
        Seq::empty()
    } else if n == 1 {
        pair_text(bins[0].0, bins[0].1)
    } else {
        bins_text(bins, n - 1) + ", "@ + pair_text(bins[n - 1].0, bins[n - 1].1)
    }
}

/// The `bin` line of a package, if it has any bins.
pub open spec fn bin_line(bins: Table<Seq<char>>) -> Seq<char> {
    if bins.len() == 0 {
        Seq::empty()
    } else {
        "    bin = {"@ + bins_text(bins, bins.len() as int) + "},\n"@
    }
}

/// The `npm_package` of one entry.
pub open spec fn package_text(key: Seq<char>, e: EntryModel) -> Seq<char> {
    "\nnpm_package(\n    name = "@ + literal(target_text(key)) + ",\n    url = "@ + literal(e.url)
        + ",\n    sha256 = "@ + literal(e.sha256) + ",\n    size = "@ + decimal_text(e.size as nat)
        + ",\n    root = "@ + literal(e.root) + ",\n"@ + bin_line(e.bin) + ")\n"@
}

/// The packages of the first `n` entries, in key order.
pub open spec fn packages_text(entries: Table<EntryModel>, n: int) -> Seq<char>
    decreases n,
{
    if n <= 0 {
        Seq::empty()
    } else {
        packages_text(entries, n - 1) + package_text(entries[n - 1].0, entries[n - 1].1)
    }
}

/// The label of a package's root directory.
pub open spec fn root_label(label: Seq<char>, key: Seq<char>) -> Seq<char> {
    "//"@ + label + ":"@ + target_text(key) + "[root]"@
}

/// The first `n` copies of a tree, one a line.
pub open spec fn copy_lines(label: Seq<char>, copies: Table<Seq<char>>, n: int) -> Seq<char>
    decreases n,
{
    if n <= 0 {
        Seq::empty()
    } else {
        copy_lines(label, copies, n - 1) + "        "@ + pair_text(
            copies[n - 1].0,
            root_label(label, copies[n - 1].1),
        ) + ",\n"@
    }
}

/// The first `n` links of a tree, one a line.
pub open spec fn link_lines(links: Table<Seq<char>>, n: int) -> Seq<char>
    decreases n,
{
    if n <= 0 {
        Seq::empty()
    } else {
        link_lines(links, n - 1) + "        "@ + pair_text(links[n - 1].0, links[n - 1].1)
            + ",\n"@
    }
}

/// The `copies` attribute of a tree, if it has any.
pub open spec fn copies_text(label: Seq<char>, copies: Table<Seq<char>>) -> Seq<char> {
    if copies.len() == 0 {
        Seq::empty()
    } else {
        "    copies = {\n"@ + copy_lines(label, copies, copies.len() as int) + "    },\n"@
    }
}

/// The `links` attribute of a tree, if it has any.
pub open spec fn links_text(links: Table<Seq<char>>) -> Seq<char> {
    if links.len() == 0 {
        Seq::empty()
    } else {
        "    links = {\n"@ + link_lines(links, links.len() as int) + "    },\n"@
    }
}

/// The `node_modules_tree` of one importer.
pub open spec fn tree_text(label: Seq<char>, importer: Seq<char>, tree: TreeModel) -> Seq<char> {
    "\nnode_modules_tree(\n    name = "@ + literal(importer_text(importer) + "_node_modules"@)
        + ",\n"@ + copies_text(label, tree.copies) + links_text(tree.links) + ")\n"@
}

/// The trees of the first `n` importers, in importer order.
pub open spec fn trees_text(label: Seq<char>, trees: Table<TreeModel>, n: int) -> Seq<char>
    decreases n,
{
    if n <= 0 {
        Seq::empty()
    } else {
        trees_text(label, trees, n - 1) + tree_text(label, trees[n - 1].0, trees[n - 1].1)
    }
}

/// The first lines: the banner and what is loaded.
pub open spec fn opening_text(label: Seq<char>) -> Seq<char> {
    HEADER@ + "\nload(\"//"@ + label + ":pudu.bzl\", \"node_modules_tree\", \"npm_package\")\n"@
}

/// The whole file.
pub open spec fn file_text(
    entries: Table<EntryModel>,
    trees: Table<TreeModel>,
    label: Seq<char>,
) -> Seq<char> {
    opening_text(label) + packages_text(entries, entries.len() as int) + trees_text(
        label,
        trees,
        trees.len() as int,
    )
}

/// The first of a package's bins from the `j`-th on that Buck2 cannot address.
pub open spec fn first_bad_bin(package: Seq<char>, bins: Table<Seq<char>>, j: int) -> Option<
    BuckErrorModel,
>
    decreases bins.len() - j,
{
    if j < 0 || j >= bins.len() {
        None
    } else if !is_bin_name(bins[j].0) {
        Some(BuckErrorModel::UnrepresentableBinName { package, name: bins[j].0 })
    } else {
        first_bad_bin(package, bins, j + 1)
    }
}

/// The first such bin of an entry from the `i`-th on.
pub open spec fn first_bin_error(entries: Table<EntryModel>, i: int) -> Option<BuckErrorModel>
    decreases entries.len() - i,
{
    if i < 0 || i >= entries.len() {
        None
    } else if first_bad_bin(entries[i].0, entries[i].1.bin, 0) is Some {
        first_bad_bin(entries[i].0, entries[i].1.bin, 0)
    } else {
        first_bin_error(entries, i + 1)
    }
}

/// The first of the first `n` importers whose target name is this one.
pub open spec fn first_named<T>(trees: Table<T>, n: int, name: Seq<char>) -> Option<Seq<char>>
    decreases n,
{
    if n <= 0 {
        None
    } else if first_named(trees, n - 1, name) is Some {
        first_named(trees, n - 1, name)
    } else if importer_text(trees[n - 1].0) == name {
        Some(trees[n - 1].0)
    } else {
        None
    }
}

/// The first importer from the `i`-th on whose target name an earlier one has.
pub open spec fn first_name_error<T>(trees: Table<T>, i: int) -> Option<BuckErrorModel>
    decreases trees.len() - i,
{
    if i < 0 || i >= trees.len() {
        None
    } else {
        match first_named(trees, i, importer_text(trees[i].0)) {
            Some(first) => Some(
                BuckErrorModel::ImporterNameCollision {
                    target: importer_text(trees[i].0),
                    first,
                    second: trees[i].0,
                },
            ),
            None => first_name_error(trees, i + 1),
        }
    }
}

/// The file, or the first thing that cannot be rendered: a bin, then an importer.
pub open spec fn render_result(
    entries: Table<EntryModel>,
    trees: Table<TreeModel>,
    label: Seq<char>,
) -> Result<Seq<char>, BuckErrorModel> {
    match (first_bin_error(entries, 0), first_name_error(trees, 0)) {
        (Some(e), _) => Err(e),
        (None, Some(e)) => Err(e),
        (None, None) => Ok(file_text(entries, trees, label)),
    }
}

// --- Rendering it ---------------------------------------------------------------

/// An importer path as a Buck target-name stem.
///
/// The root importer is `.`, which is not a name; everything else is a
/// workspace-relative directory path, and `/` is not legal in a target name.
pub fn importer_target_name(importer: &str) -> (r: String)
    ensures
        r@ == importer_text(importer@),
{
    if same(importer, ".") {
        return "root".to_owned();
    }
    let chars = chars_of(importer);
    let mut out = String::new();
    let mut i: usize = 0;
    while i < chars.len()
        invariant
            chars@ == importer@,
            i <= chars.len(),
            out@ == underscored(importer@).take(i as int),
        decreases chars.len() - i,
    {
        if chars[i] == '/' {
            out.push('_');
        } else {
            out.push(chars[i]);
        }
        i += 1;
        assert(underscored(importer@).take(i as int) =~= underscored(importer@).take(i - 1).push(
            underscored(importer@)[i - 1],
        ));
    }
    assert(underscored(importer@).take(i as int) =~= underscored(importer@));
    out
}

fn push_pair(out: &mut String, k: &str, v: &str)
    ensures
        final(out)@ == old(out)@ + pair_text(k@, v@),
{
    let ghost before = out@;
    out.append(starlark_string(k).as_str());
    out.append(": ");
    out.append(starlark_string(v).as_str());
    assert(out@ =~= before + pair_text(k@, v@));
}

fn push_bins(out: &mut String, bins: &Dict<String>)
    ensures
        final(out)@ == old(out)@ + bin_line(bins.deep_view()),
{
    let ghost before = out@;
    let ghost bs = bins.deep_view();
    if bins.len() == 0 {
        assert(before + bin_line(bs) =~= before);
        return ;
    }
    out.append("    bin = {");
    let ghost head = out@;
    let mut i: usize = 0;
    assert(head + bins_text(bs, 0) =~= head);
    while i < bins.len()
        invariant
            bs == bins.deep_view(),
            i <= bs.len(),
            out@ == head + bins_text(bs, i as int),
        decreases bs.len() - i,
    {
        if i > 0 {
            out.append(", ");
        }
        push_pair(out, bins.key(i), bins.value(i));
        i += 1;
        assert(bs[i - 1] == (bins@[i - 1].0@, bins@[i - 1].1@));
        assert(out@ =~= head + bins_text(bs, i as int));
    }
    out.append("},\n");
    assert(out@ =~= before + bin_line(bs));
}

fn push_package(out: &mut String, key: &str, e: &Entry)
    ensures
        final(out)@ == old(out)@ + package_text(key@, e.deep_view()),
{
    let ghost before = out@;
    let mut text = "\nnpm_package(\n    name = ".to_owned();
    text.append(starlark_string(target_name(key).as_str()).as_str());
    text.append(",\n    url = ");
    text.append(starlark_string(e.url.as_str()).as_str());
    text.append(",\n    sha256 = ");
    text.append(starlark_string(e.sha256.as_str()).as_str());
    text.append(",\n    size = ");
    text.append(decimal(e.size).as_str());
    text.append(",\n    root = ");
    text.append(starlark_string(e.root.as_str()).as_str());
    text.append(",\n");
    push_bins(&mut text, &e.bin);
    text.append(")\n");
    assert(text@ == package_text(key@, e.deep_view()));
    out.append(text.as_str());
}

fn push_copies(out: &mut String, label: &str, copies: &Dict<String>)
    ensures
        final(out)@ == old(out)@ + copies_text(label@, copies.deep_view()),
{
    let ghost before = out@;
    let ghost cs = copies.deep_view();
    if copies.len() == 0 {
        assert(before + copies_text(label@, cs) =~= before);
        return ;
    }
    out.append("    copies = {\n");
    let ghost head = out@;
    let mut i: usize = 0;
    assert(head + copy_lines(label@, cs, 0) =~= head);
    while i < copies.len()
        invariant
            cs == copies.deep_view(),
            i <= cs.len(),
            out@ == head + copy_lines(label@, cs, i as int),
        decreases cs.len() - i,
    {
        let mut root = "//".to_owned();
        root.append(label);
        root.append(":");
        root.append(target_name(copies.value(i)).as_str());
        root.append("[root]");
        assert(cs[i as int] == (copies@[i as int].0@, copies@[i as int].1@));
        assert(root@ == root_label(label@, cs[i as int].1));
        out.append("        ");
        push_pair(out, copies.key(i), root.as_str());
        out.append(",\n");
        i += 1;
        assert(out@ =~= head + copy_lines(label@, cs, i as int));
    }
    out.append("    },\n");
    assert(out@ =~= before + copies_text(label@, cs));
}

fn push_links(out: &mut String, links: &Dict<String>)
    ensures
        final(out)@ == old(out)@ + links_text(links.deep_view()),
{
    let ghost before = out@;
    let ghost ls = links.deep_view();
    if links.len() == 0 {
        assert(before + links_text(ls) =~= before);
        return ;
    }
    out.append("    links = {\n");
    let ghost head = out@;
    let mut i: usize = 0;
    assert(head + link_lines(ls, 0) =~= head);
    while i < links.len()
        invariant
            ls == links.deep_view(),
            i <= ls.len(),
            out@ == head + link_lines(ls, i as int),
        decreases ls.len() - i,
    {
        assert(ls[i as int] == (links@[i as int].0@, links@[i as int].1@));
        out.append("        ");
        push_pair(out, links.key(i), links.value(i));
        out.append(",\n");
        i += 1;
        assert(out@ =~= head + link_lines(ls, i as int));
    }
    out.append("    },\n");
    assert(out@ =~= before + links_text(ls));
}

fn push_tree(out: &mut String, label: &str, importer: &str, tree: &Tree)
    ensures
        final(out)@ == old(out)@ + tree_text(label@, importer@, tree.deep_view()),
{
    let mut name = importer_target_name(importer);
    name.append("_node_modules");
    let mut text = "\nnode_modules_tree(\n    name = ".to_owned();
    text.append(starlark_string(name.as_str()).as_str());
    text.append(",\n");
    push_copies(&mut text, label, &tree.copies);
    push_links(&mut text, &tree.links);
    text.append(")\n");
    assert(text@ == tree_text(label@, importer@, tree.deep_view()));
    out.append(text.as_str());
}

/// Renders the file. `third_party_label` is the package that it stands in.
pub fn render(entries: &Dict<Entry>, trees: &Dict<Tree>, third_party_label: &str) -> (r: Result<
    String,
    BuckError,
>)
    ensures
        match (
            render_result(entries.deep_view(), trees.deep_view(), third_party_label@),
            r,
        ) {
            (Ok(text), Ok(s)) => s@ == text,
            (Err(m), Err(e)) => e.deep_view() == m,
            _ => false,
        },
{
    let ghost es = entries.deep_view();
    let ghost ts = trees.deep_view();
    let ghost label = third_party_label@;
    let mut out = HEADER.to_owned();
    out.append("\nload(\"//");
    out.append(third_party_label);
    out.append(":pudu.bzl\", \"node_modules_tree\", \"npm_package\")\n");
    let mut i: usize = 0;
    assert(out@ =~= opening_text(label) + packages_text(es, 0));
    while i < entries.len()
        invariant
            es == entries.deep_view(),
            ts == trees.deep_view(),
            label == third_party_label@,
            i <= es.len(),
            first_bin_error(es, 0) == first_bin_error(es, i as int),
            out@ == opening_text(label) + packages_text(es, i as int),
        decreases es.len() - i,
    {
        let key = entries.key(i);
        let e = entries.value(i);
        let ghost bins = e.bin.deep_view();
        assert(es[i as int] == (key@, e.deep_view()));
        let mut j: usize = 0;
        while j < e.bin.len()
            invariant
                es == entries.deep_view(),
                ts == trees.deep_view(),
                label == third_party_label@,
                i < es.len(),
                es[i as int] == (key@, e.deep_view()),
                bins == e.bin.deep_view(),
                j <= bins.len(),
                first_bin_error(es, 0) == first_bin_error(es, i as int),
                first_bad_bin(key@, bins, 0) == first_bad_bin(key@, bins, j as int),
            decreases bins.len() - j,
        {
            assert(bins[j as int].0 == e.bin@[j as int].0@);
            match validate_bin_name(key, e.bin.key(j)) {
                Ok(_) => {},
                Err(e) => {
                    return Err(e);
                },
            }
            j += 1;
        }
        push_package(&mut out, key, e);
        i += 1;
        assert(out@ =~= opening_text(label) + packages_text(es, i as int));
    }
    let ghost above = out@;
    // Two importers can flatten to the same target name (`a/b` and `a_b`), which
    // would be a duplicate target that names neither importer.
    let mut seen: Dict<String> = Dict::new();
    i = 0;
    assert(out@ =~= above + trees_text(label, ts, 0));
    while i < trees.len()
        invariant
            es == entries.deep_view(),
            ts == trees.deep_view(),
            label == third_party_label@,
            above == opening_text(label) + packages_text(es, es.len() as int),
            i <= ts.len(),
            first_bin_error(es, 0) is None,
            first_name_error(ts, 0) == first_name_error(ts, i as int),
            forall|t: Seq<char>|
                #[trigger] lookup(seen.deep_view(), t) == first_named(ts, i as int, t),
            out@ == above + trees_text(label, ts, i as int),
        decreases ts.len() - i,
    {
        let importer = trees.key(i);
        let tree = trees.value(i);
        assert(ts[i as int] == (importer@, tree.deep_view()));
        let name = importer_target_name(importer);
        if let Some(first) = seen.get(&name) {
            return Err(
                BuckError::ImporterNameCollision {
                    target: name,
                    first: first.clone(),
                    second: importer.clone(),
                },
            );
        }
        let ghost named = seen.deep_view();
        seen.insert(name, importer.clone());
        proof {
            let after = seen.deep_view();
            assert forall|t: Seq<char>| #[trigger] lookup(after, t) == first_named(ts, i + 1, t) by {
                lookup_is_map(named, t);
                lookup_is_map(after, t);
                assert(lookup(named, t) == first_named(ts, i as int, t));
            }
        }
        push_tree(&mut out, third_party_label, importer, tree);
        i += 1;
        assert(out@ =~= above + trees_text(label, ts, i as int));
    }
    Ok(out)
}

// --- Laws -----------------------------------------------------------------------

proof fn named_found<T>(trees: Table<T>, n: int, i: int)
    requires
        0 <= i < n,
    ensures
        first_named(trees, n, importer_text(trees[i].0)) is Some,
    decreases n,
{
    if i < n - 1 {
        named_found(trees, n - 1, i);
    }
}

proof fn no_name_error<T>(trees: Table<T>, i: int)
    requires
        0 <= i,
        first_name_error(trees, i) is None,
    ensures
        forall|k: int|
            i <= k < trees.len() ==> first_named(trees, k, importer_text((#[trigger] trees[k]).0)) is None,
    decreases trees.len() - i,
{
    if i < trees.len() {
        no_name_error(trees, i + 1);
    }
}

/// A file that is rendered never declares one tree target twice: the importers'
/// target names differ pairwise.
pub proof fn rendered_trees_have_distinct_names(
    entries: Table<EntryModel>,
    trees: Table<TreeModel>,
    label: Seq<char>,
)
    requires
        render_result(entries, trees, label) is Ok,
    ensures
        forall|i: int, j: int|
            0 <= i < j < trees.len() ==> importer_text((#[trigger] trees[i]).0) != importer_text(
                (#[trigger] trees[j]).0,
            ),
{
    no_name_error(trees, 0);
    assert forall|i: int, j: int| 0 <= i < j < trees.len() implies importer_text((#[trigger] trees[i]).0) != importer_text((#[trigger] trees[j]).0) by {
        named_found(trees, j, i);
    }
}

proof fn no_bad_bin(package: Seq<char>, bins: Table<Seq<char>>, j: int)
    requires
        0 <= j,
        first_bad_bin(package, bins, j) is None,
    ensures
        forall|k: int| j <= k < bins.len() ==> is_bin_name((#[trigger] bins[k]).0),
    decreases bins.len() - j,
{
    if j < bins.len() {
        no_bad_bin(package, bins, j + 1);
    }
}

proof fn no_bin_error(entries: Table<EntryModel>, i: int)
    requires
        0 <= i,
        first_bin_error(entries, i) is None,
    ensures
        forall|k: int, j: int|
            i <= k < entries.len() && 0 <= j < entries[k].1.bin.len() ==> is_bin_name(
                (#[trigger] entries[k].1.bin[j]).0,
            ),
    decreases entries.len() - i,
{
    if i < entries.len() {
        no_bad_bin(entries[i].0, entries[i].1.bin, 0);
        no_bin_error(entries, i + 1);
    }
}

/// Every bin of a file that is rendered can be addressed by Buck2.
pub proof fn rendered_bins_are_addressable(
    entries: Table<EntryModel>,
    trees: Table<TreeModel>,
    label: Seq<char>,
)
    requires
        render_result(entries, trees, label) is Ok,
    ensures
        forall|k: int, j: int|
            0 <= k < entries.len() && 0 <= j < entries[k].1.bin.len() ==> is_bin_name(
                (#[trigger] entries[k].1.bin[j]).0,
            ),
{
    no_bin_error(entries, 0);
}

/// The target-name stem of an importer: `root` for the workspace itself. Any other path
/// keeps its length and every character but `/`, and wherever it has `/` the stem has `_`,
/// so that no stem holds a `/`.
pub proof fn importer_stems_hold_no_slash(importer: Seq<char>)
    ensures
        !importer_text(importer).contains('/'),
        importer == "."@ ==> importer_text(importer) == "root"@,
        importer != "."@ ==> importer_text(importer).len() == importer.len(),
        importer != "."@ ==> forall|i: int|
            0 <= i < importer.len() && importer[i] == '/' ==> #[trigger] importer_text(importer)[i]
                == '_',
        importer != "."@ ==> forall|i: int|
            0 <= i < importer.len() && importer[i] != '/' ==> #[trigger] importer_text(importer)[i]
                == importer[i],
{
    let stem = importer_text(importer);
    reveal_strlit("root");
    if stem.contains('/') {
        let i = stem.index_of('/');
        assert(stem[i] == '/');
    }
}

/// The items of a one-line dictionary.
pub open spec fn pairs_of(table: Table<Seq<char>>) -> Seq<Seq<char>> {
    table.map_values(|b: (Seq<char>, Seq<char>)| literal(b.0) + ": "@ + literal(b.1))
}

proof fn bins_are_joined(bins: Table<Seq<char>>, n: int)
    requires
        0 <= n <= bins.len(),
    ensures
        bins_text(bins, n) == join_with(pairs_of(bins).take(n), ", "@),
    decreases n,
{
    let all = pairs_of(bins).take(n);
    if n > 0 {
        bins_are_joined(bins, n - 1);
        assert(all.drop_last() =~= pairs_of(bins).take(n - 1));
        assert(all.last() == pair_text(bins[n - 1].0, bins[n - 1].1));
        if n == 1 {
            assert(all[0] == pair_text(bins[0].0, bins[0].1));
        }
    }
}

proof fn package_stands_among(entries: Table<EntryModel>, n: int, i: int)
    requires
        0 <= i < n <= entries.len(),
    ensures
        stands_in(packages_text(entries, n), package_text(entries[i].0, entries[i].1)),
    decreases n,
{
    let before = packages_text(entries, n - 1);
    let last = package_text(entries[n - 1].0, entries[n - 1].1);
    let none = Seq::<char>::empty();
    assert(packages_text(entries, n) =~= before + last + none);
    if i == n - 1 {
        stands_between(before, last, none);
    } else {
        package_stands_among(entries, n - 1, i);
        stands_inside(none, before, last, package_text(entries[i].0, entries[i].1));
        assert(none + before + last =~= before + last + none);
    }
}

proof fn tree_stands_among(label: Seq<char>, trees: Table<TreeModel>, n: int, i: int)
    requires
        0 <= i < n <= trees.len(),
    ensures
        stands_in(trees_text(label, trees, n), tree_text(label, trees[i].0, trees[i].1)),
    decreases n,
{
    let before = trees_text(label, trees, n - 1);
    let last = tree_text(label, trees[n - 1].0, trees[n - 1].1);
    let none = Seq::<char>::empty();
    assert(trees_text(label, trees, n) =~= before + last + none);
    if i == n - 1 {
        stands_between(before, last, none);
    } else {
        tree_stands_among(label, trees, n - 1, i);
        stands_inside(none, before, last, tree_text(label, trees[i].0, trees[i].1));
        assert(none + before + last =~= before + last + none);
    }
}

/// The file declares every package of the table, under its target name, with its own
/// address, SHA-256 digest, size, archive root and commands.
pub proof fn every_package_is_declared(
    entries: Table<EntryModel>,
    trees: Table<TreeModel>,
    label: Seq<char>,
    i: int,
)
    requires
        render_result(entries, trees, label) is Ok,
        0 <= i < entries.len(),
    ensures
        ({
            let (key, e) = entries[i];
            stands_in(
                render_result(entries, trees, label)->Ok_0,
                "\nnpm_package(\n    name = "@ + literal(target_text(key)) + ",\n    url = "@
                    + literal(e.url) + ",\n    sha256 = "@ + literal(e.sha256) + ",\n    size = "@
                    + decimal_text(e.size as nat) + ",\n    root = "@ + literal(e.root) + ",\n"@
                    + if e.bin.len() == 0 {
                    Seq::<char>::empty()
                } else {
                    "    bin = {"@ + join_with(pairs_of(e.bin), ", "@) + "},\n"@
                } + ")\n"@,
            )
        }),
{
    let (key, e) = entries[i];
    let n = entries.len() as int;
    bins_are_joined(e.bin, e.bin.len() as int);
    assert(pairs_of(e.bin).take(e.bin.len() as int) =~= pairs_of(e.bin));
    package_stands_among(entries, n, i);
    stands_inside(
        opening_text(label),
        packages_text(entries, n),
        trees_text(label, trees, trees.len() as int),
        package_text(key, e),
    );
}

/// The lines of a dictionary that is written over several.
pub open spec fn lines_of(table: Table<Seq<char>>) -> Seq<Seq<char>> {
    table.map_values(
        |b: (Seq<char>, Seq<char>)| "        "@ + literal(b.0) + ": "@ + literal(b.1) + ",\n"@,
    )
}

/// The copies of a tree, each with the label of its package's root directory.
pub open spec fn labelled(label: Seq<char>, copies: Table<Seq<char>>) -> Table<Seq<char>> {
    copies.map_values(
        |c: (Seq<char>, Seq<char>)| (c.0, "//"@ + label + ":"@ + target_text(c.1) + "[root]"@),
    )
}

proof fn links_are_lines(links: Table<Seq<char>>, n: int)
    requires
        0 <= n <= links.len(),
    ensures
        link_lines(links, n) == join_with(lines_of(links).take(n), Seq::empty()),
    decreases n,
{
    let all = lines_of(links).take(n);
    if n > 0 {
        links_are_lines(links, n - 1);
        assert(all.drop_last() =~= lines_of(links).take(n - 1));
        let (k, v) = links[n - 1];
        let line = "        "@ + literal(k) + ": "@ + literal(v) + ",\n"@;
        assert(all.last() == line);
        assert(link_lines(links, n) =~= link_lines(links, n - 1) + line);
        assert(link_lines(links, n) =~= join_with(all, Seq::empty()));
    }
}

proof fn copies_are_lines(label: Seq<char>, copies: Table<Seq<char>>, n: int)
    requires
        0 <= n <= copies.len(),
    ensures
        copy_lines(label, copies, n) == link_lines(labelled(label, copies), n),
    decreases n,
{
    if n > 0 {
        copies_are_lines(label, copies, n - 1);
        let line = labelled(label, copies)[n - 1];
        assert(line == (copies[n - 1].0, root_label(label, copies[n - 1].1)));
    }
}

/// The file declares the tree of every importer, under the importer's stem and
/// `_node_modules`, with a line for each package that is copied, which names the package's
/// root by its label, and a line for each link.
pub proof fn every_tree_is_declared(
    entries: Table<EntryModel>,
    trees: Table<TreeModel>,
    label: Seq<char>,
    i: int,
)
    requires
        render_result(entries, trees, label) is Ok,
        0 <= i < trees.len(),
    ensures
        ({
            let (importer, tree) = trees[i];
            stands_in(
                render_result(entries, trees, label)->Ok_0,
                "\nnode_modules_tree(\n    name = "@ + literal(
                    importer_text(importer) + "_node_modules"@,
                ) + ",\n"@ + if tree.copies.len() == 0 {
                    Seq::<char>::empty()
                } else {
                    "    copies = {\n"@ + join_with(
                        lines_of(labelled(label, tree.copies)),
                        Seq::empty(),
                    ) + "    },\n"@
                } + if tree.links.len() == 0 {
                    Seq::<char>::empty()
                } else {
                    "    links = {\n"@ + join_with(lines_of(tree.links), Seq::empty())
                        + "    },\n"@
                } + ")\n"@,
            )
        }),
{
    let (importer, tree) = trees[i];
    let n = trees.len() as int;
    let none = Seq::<char>::empty();
    links_are_lines(tree.links, tree.links.len() as int);
    assert(lines_of(tree.links).take(tree.links.len() as int) =~= lines_of(tree.links));
    let copies = labelled(label, tree.copies);
    copies_are_lines(label, tree.copies, tree.copies.len() as int);
    links_are_lines(copies, copies.len() as int);
    assert(lines_of(copies).take(copies.len() as int) =~= lines_of(copies));
    tree_stands_among(label, trees, n, i);
    let head = opening_text(label) + packages_text(entries, entries.len() as int);
    stands_inside(head, trees_text(label, trees, n), none, tree_text(label, importer, tree));
    assert(head + trees_text(label, trees, n) + none =~= file_text(entries, trees, label));
}

proof fn a_bad_bin_is_one(package: Seq<char>, bins: Table<Seq<char>>, j: int)
    requires
        0 <= j,
        first_bad_bin(package, bins, j) is Some,
    ensures
        exists|k: int|
            j <= k < bins.len() && !is_bin_name((#[trigger] bins[k]).0) && first_bad_bin(
                package,
                bins,
                j,
            ) == Some(BuckErrorModel::UnrepresentableBinName { package, name: bins[k].0 }),
    decreases bins.len() - j,
{
    if j < bins.len() && is_bin_name(bins[j].0) {
        a_bad_bin_is_one(package, bins, j + 1);
    }
}

proof fn a_bin_error_has_its_bin(entries: Table<EntryModel>, i: int)
    requires
        0 <= i,
        first_bin_error(entries, i) is Some,
    ensures
        exists|k: int, j: int|
            i <= k < entries.len() && 0 <= j < entries[k].1.bin.len() && !is_bin_name(
                (#[trigger] entries[k].1.bin[j]).0,
            ) && first_bin_error(entries, i) == Some(
                BuckErrorModel::UnrepresentableBinName {
                    package: entries[k].0,
                    name: entries[k].1.bin[j].0,
                },
            ),
    decreases entries.len() - i,
{
    if i < entries.len() {
        if first_bad_bin(entries[i].0, entries[i].1.bin, 0) is Some {
            a_bad_bin_is_one(entries[i].0, entries[i].1.bin, 0);
        } else {
            a_bin_error_has_its_bin(entries, i + 1);
        }
    }
}

proof fn first_named_is(trees: Table<TreeModel>, n: int, name: Seq<char>)
    requires
        0 <= n <= trees.len(),
        first_named(trees, n, name) is Some,
    ensures
        exists|i: int|
            0 <= i < n && (#[trigger] trees[i]).0 == first_named(trees, n, name)->Some_0
                && importer_text(trees[i].0) == name,
    decreases n,
{
    if n > 0 {
        if first_named(trees, n - 1, name) is Some {
            first_named_is(trees, n - 1, name);
        } else {
            assert(trees[n - 1].0 == first_named(trees, n, name)->Some_0);
        }
    }
}

proof fn a_name_error_has_its_importers(trees: Table<TreeModel>, i: int)
    requires
        0 <= i,
        first_name_error(trees, i) is Some,
    ensures
        exists|a: int, b: int|
            0 <= a < b < trees.len() && importer_text((#[trigger] trees[a]).0) == importer_text(
                (#[trigger] trees[b]).0,
            ) && first_name_error(trees, i) == Some(
                BuckErrorModel::ImporterNameCollision {
                    target: importer_text(trees[b].0),
                    first: trees[a].0,
                    second: trees[b].0,
                },
            ),
    decreases trees.len() - i,
{
    if i < trees.len() {
        let name = importer_text(trees[i].0);
        if first_named(trees, i, name) is Some {
            first_named_is(trees, i, name);
            let a = choose|a: int|
                0 <= a < i && (#[trigger] trees[a]).0 == first_named(trees, i, name)->Some_0
                    && importer_text(trees[a].0) == name;
            assert(importer_text(trees[a].0) == importer_text(trees[i].0));
        } else {
            a_name_error_has_its_importers(trees, i + 1);
        }
    }
}

/// Nothing is refused without cause: a refusal names a bin of one of the packages that
/// Buck2 cannot address, or two importers that would share a target name.
pub proof fn only_unusable_names_are_refused(
    entries: Table<EntryModel>,
    trees: Table<TreeModel>,
    label: Seq<char>,
)
    requires
        render_result(entries, trees, label) is Err,
    ensures
        match render_result(entries, trees, label)->Err_0 {
            BuckErrorModel::UnrepresentableBinName { package, name } => exists|k: int, j: int|
                {
                    &&& 0 <= k < entries.len() && 0 <= j < entries[k].1.bin.len()
                    &&& entries[k].0 == package
                    &&& (#[trigger] entries[k].1.bin[j]).0 == name
                    &&& !is_bin_name(name)
                },
            BuckErrorModel::ImporterNameCollision { target, first, second } => exists|
                a: int,
                b: int,
            |
                {
                    &&& 0 <= a < b < trees.len()
                    &&& (#[trigger] trees[a]).0 == first
                    &&& (#[trigger] trees[b]).0 == second
                    &&& importer_text(first) == target
                    &&& importer_text(second) == target
                },
            _ => false,
        },
{
    if first_bin_error(entries, 0) is Some {
        a_bin_error_has_its_bin(entries, 0);
    } else {
        a_name_error_has_its_importers(trees, 0);
        let (a, b) = choose|a: int, b: int|
            0 <= a < b < trees.len() && importer_text((#[trigger] trees[a]).0) == importer_text(
                (#[trigger] trees[b]).0,
            ) && first_name_error(trees, 0) == Some(
                BuckErrorModel::ImporterNameCollision {
                    target: importer_text(trees[b].0),
                    first: trees[a].0,
                    second: trees[b].0,
                },
            );
        assert(trees[a].0 == trees[a].0 && trees[b].0 == trees[b].0);
    }
}

/// A file opens with the banner and loads both macros from beside it.
pub proof fn a_file_loads_its_macros(
    entries: Table<EntryModel>,
    trees: Table<TreeModel>,
    label: Seq<char>,
)
    ensures
        HEADER@.is_prefix_of(file_text(entries, trees, label)),
        stands_in(
            file_text(entries, trees, label),
            "load(\"//"@ + label + ":pudu.bzl\", \"node_modules_tree\", \"npm_package\")"@,
        ),
{
    reveal_strlit("\nload(\"//");
    reveal_strlit("load(\"//");
    reveal_strlit(":pudu.bzl\", \"node_modules_tree\", \"npm_package\")\n");
    reveal_strlit(":pudu.bzl\", \"node_modules_tree\", \"npm_package\")");
    let all = file_text(entries, trees, label);
    let line = "load(\"//"@ + label
        + ":pudu.bzl\", \"node_modules_tree\", \"npm_package\")"@;
    let at = HEADER@.len() as int + 1;
    assert(all.take(HEADER@.len() as int) =~= HEADER@);
    assert(all.subrange(at, at + line.len()) =~= line);
    assert(occurs_at(all, line, at));
}

proof fn package_stands_at(entries: Table<EntryModel>, n: int, i: int)
    requires
        0 <= i < n <= entries.len(),
    ensures
        occurs_at(
            packages_text(entries, n),
            package_text(entries[i].0, entries[i].1),
            packages_text(entries, i).len() as int,
        ),
        packages_text(entries, i + 1).len() == packages_text(entries, i).len() + package_text(
            entries[i].0,
            entries[i].1,
        ).len(),
        packages_text(entries, i + 1).len() <= packages_text(entries, n).len(),
    decreases n,
{
    let all = packages_text(entries, n);
    let before = packages_text(entries, n - 1);
    let text = package_text(entries[i].0, entries[i].1);
    let at = packages_text(entries, i).len() as int;
    if i < n - 1 {
        package_stands_at(entries, n - 1, i);
        assert(all.subrange(at, at + text.len()) =~= before.subrange(at, at + text.len()));
    } else {
        assert(all.subrange(at, at + text.len()) =~= text);
    }
}

/// The packages stand in the file in the order of their keys.
pub proof fn packages_stand_in_order(
    entries: Table<EntryModel>,
    trees: Table<TreeModel>,
    label: Seq<char>,
    i: int,
    j: int,
)
    requires
        0 <= i < j < entries.len(),
    ensures
        exists|a: int, b: int|
            {
                &&& #[trigger] occurs_at(
                    file_text(entries, trees, label),
                    package_text(entries[i].0, entries[i].1),
                    a,
                )
                &&& #[trigger] occurs_at(
                    file_text(entries, trees, label),
                    package_text(entries[j].0, entries[j].1),
                    b,
                )
                &&& a + package_text(entries[i].0, entries[i].1).len() <= b
            },
{
    let n = entries.len() as int;
    let head = opening_text(label);
    let all = packages_text(entries, n);
    let tail = trees_text(label, trees, trees.len() as int);
    package_stands_at(entries, n, i);
    package_stands_at(entries, n, j);
    package_stands_at(entries, j, i);
    let a = packages_text(entries, i).len() as int;
    let b = packages_text(entries, j).len() as int;
    occurs_further_on(head, all, tail, package_text(entries[i].0, entries[i].1), a);
    occurs_further_on(head, all, tail, package_text(entries[j].0, entries[j].1), b);
    let text = file_text(entries, trees, label);
    assert(text == head + all + tail);
    assert(occurs_at(text, package_text(entries[i].0, entries[i].1), head.len() + a));
    assert(occurs_at(text, package_text(entries[j].0, entries[j].1), head.len() + b));
}

proof fn occurs_further_on(
    head: Seq<char>,
    all: Seq<char>,
    tail: Seq<char>,
    p: Seq<char>,
    at: int,
)
    requires
        occurs_at(all, p, at),
    ensures
        occurs_at(head + all + tail, p, head.len() + at),
{
    let from = head.len() + at;
    assert((head + all + tail).subrange(from, from + p.len()) =~= all.subrange(at, at + p.len()));
}

} // verus!
