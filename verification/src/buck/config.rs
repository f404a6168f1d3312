//! `config/BUCK`: one `config_setting` per configured platform.

use vstd::prelude::*;

use crate::buck::format::{literal, starlark_string};
use crate::buck::HEADER;
use crate::config::{Platform, PlatformModel};
use crate::dict::Dict;
use crate::lock::types::Table;
use crate::platform::constraints::{constraint_labels, labels_of};
use crate::text::{join_with, stands_between, stands_in, stands_inside};

verus! {

/// The first `n` labels, one a line.
pub open spec fn label_lines(labels: Seq<Seq<char>>, n: int) -> Seq<char>
    decreases n,
{
    if n <= 0 {
        Seq::empty()
    } else {
        label_lines(labels, n - 1) + "        "@ + literal(labels[n - 1]) + ",\n"@
    }
}

/// The `config_setting` of one platform.
pub open spec fn setting_text(name: Seq<char>, labels: Seq<Seq<char>>) -> Seq<char> {
    "\nconfig_setting(\n    name = "@ + literal(name) + ",\n    constraint_values = [\n"@ + label_lines(
        labels,
        labels.len() as int,
    ) + "    ],\n    visibility = [\"PUBLIC\"],\n)\n"@
}

/// The settings of the first `n` platforms, in name order.
pub open spec fn settings_text(platforms: Table<PlatformModel>, n: int) -> Seq<char>
    decreases n,
{
    if n <= 0 {
        Seq::empty()
    } else {
        settings_text(platforms, n - 1) + setting_text(
            platforms[n - 1].0,
            labels_of(platforms[n - 1].1, platforms),
        )
    }
}

fn push_setting(out: &mut String, name: &str, labels: &Vec<String>)
    ensures
        final(out)@ == old(out)@ + setting_text(name@, labels.deep_view()),
{
    let ghost before = out@;
    let ghost ls = labels.deep_view();
    out.append("\nconfig_setting(\n    name = ");
    out.append(starlark_string(name).as_str());
    out.append(",\n    constraint_values = [\n");
    let ghost head = out@;
    let mut i: usize = 0;
    assert(head + label_lines(ls, 0) =~= head);
    while i < labels.len()
        invariant
            ls == labels.deep_view(),
            i <= ls.len(),
            out@ == head + label_lines(ls, i as int),
        decreases ls.len() - i,
    {
        out.append("        ");
        out.append(starlark_string(labels[i].as_str()).as_str());
        out.append(",\n");
        i += 1;
        assert(ls[i - 1] == labels@[i - 1]@);
        assert(out@ =~= head + label_lines(ls, i as int));
    }
    out.append("    ],\n    visibility = [\"PUBLIC\"],\n)\n");
    assert(out@ =~= before + setting_text(name@, ls));
}

/// The file: the banner and one setting per platform.
pub fn render(platforms: &Dict<Platform>) -> (r: String)
    ensures
        r@ == HEADER@ + settings_text(
            platforms.deep_view(),
            platforms.deep_view().len() as int,
        ),
{
    let ghost table = platforms.deep_view();
    let mut out = HEADER.to_owned();
    let mut i: usize = 0;
    assert(out@ + settings_text(table, 0) =~= out@);
    while i < platforms.len()
        invariant
            table == platforms.deep_view(),
            i <= table.len(),
            out@ == HEADER@ + settings_text(table, i as int),
        decreases table.len() - i,
    {
        let platform = platforms.value(i);
        assert(table[i as int] == (platforms@[i as int].0@, platform.deep_view()));
        let labels = constraint_labels(platform, platforms);
        push_setting(&mut out, platforms.key(i), &labels);
        i += 1;
        assert(out@ =~= HEADER@ + settings_text(table, i as int));
    }
    out
}

// --- Laws -----------------------------------------------------------------------

proof fn labels_are_joined(labels: Seq<Seq<char>>, n: int)
    requires
        0 <= n <= labels.len(),
    ensures
        label_lines(labels, n) == join_with(
            labels.map_values(|l: Seq<char>| "        "@ + literal(l) + ",\n"@).take(n),
            Seq::empty(),
        ),
    decreases n,
{
    let lines = labels.map_values(|l: Seq<char>| "        "@ + literal(l) + ",\n"@);
    let all = lines.take(n);
    if n > 0 {
        labels_are_joined(labels, n - 1);
        assert(all.drop_last() =~= lines.take(n - 1));
        assert(all.last() == "        "@ + literal(labels[n - 1]) + ",\n"@);
        assert(label_lines(labels, n) =~= label_lines(labels, n - 1) + all.last());
        assert(label_lines(labels, n) =~= join_with(all, Seq::empty()));
    }
}

proof fn setting_stands_among(platforms: Table<PlatformModel>, n: int, i: int)
    requires
        0 <= i < n <= platforms.len(),
    ensures
        stands_in(
            settings_text(platforms, n),
            setting_text(platforms[i].0, labels_of(platforms[i].1, platforms)),
        ),
    decreases n,
{
    let before = settings_text(platforms, n - 1);
    let last = setting_text(platforms[n - 1].0, labels_of(platforms[n - 1].1, platforms));
    let none = Seq::<char>::empty();
    assert(settings_text(platforms, n) =~= before + last + none);
    if i == n - 1 {
        stands_between(before, last, none);
    } else {
        let own = setting_text(platforms[i].0, labels_of(platforms[i].1, platforms));
        setting_stands_among(platforms, n - 1, i);
        stands_inside(none, before, last, own);
        assert(none + before + last =~= before + last + none);
    }
}

/// The file has a setting for every configured platform, under the platform's name, that
/// selects on that platform's labels, one a line.
pub proof fn every_platform_has_its_setting(platforms: Table<PlatformModel>, i: int)
    requires
        0 <= i < platforms.len(),
    ensures
        stands_in(
            settings_text(platforms, platforms.len() as int),
            "\nconfig_setting(\n    name = "@ + literal(platforms[i].0)
                + ",\n    constraint_values = [\n"@ + join_with(
                labels_of(platforms[i].1, platforms).map_values(
                    |l: Seq<char>| "        "@ + literal(l) + ",\n"@,
                ),
                Seq::empty(),
            ) + "    ],\n    visibility = [\"PUBLIC\"],\n)\n"@,
        ),
{
    let labels = labels_of(platforms[i].1, platforms);
    let lines = labels.map_values(|l: Seq<char>| "        "@ + literal(l) + ",\n"@);
    labels_are_joined(labels, labels.len() as int);
    assert(lines.take(labels.len() as int) =~= lines);
    setting_stands_among(platforms, platforms.len() as int, i);
}

/// The settings stand in the order of the platforms' names: what a platform adds stands
/// behind what those before it added.
pub proof fn settings_stand_in_order(platforms: Table<PlatformModel>, i: int, n: int)
    requires
        0 <= i <= n <= platforms.len(),
    ensures
        settings_text(platforms, i).is_prefix_of(settings_text(platforms, n)),
    decreases n - i,
{
    let all = settings_text(platforms, n);
    let front = settings_text(platforms, i);
    if i < n {
        settings_stand_in_order(platforms, i, n - 1);
        let before = settings_text(platforms, n - 1);
        assert(all.take(front.len() as int) =~= before.take(front.len() as int));
        assert(front =~= before.take(front.len() as int));
    } else {
        assert(all.take(front.len() as int) =~= front);
    }
}

} // verus!
