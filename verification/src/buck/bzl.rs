//! `pudu.bzl`, the macro file.
//!
//! Static text. Nothing is interpolated, so this file is the same in every
//! project.

use vstd::prelude::*;

use crate::buck::HEADER;

verus! {

/// What is loaded, and the macro for one registry tarball.
pub const PACKAGE_MACRO: &'static str = r#"
load("@prelude//:rules.bzl", "http_archive")

# `NodeToolchainInfo` is defined in `toolchains.bzl`, which `pudu init` writes
# into this same directory. That file is user-owned ("Safe to edit"), so this
# load is a contract between a generated file and a user-editable one.
load(":toolchains.bzl", "NodeToolchainInfo")

def npm_package(name, url, sha256, size, root, bin = {}, visibility = None):
    """One registry tarball, extracted and verified by Buck.

    The archive is deliberately NOT stripped. The buck2 prelude interpolates
    `strip_prefix` unquoted into a shell command, and an archive root is
    third-party data that can contain a space: `@types/node` unpacks to
    `node v22.20`, which tar then reads as two arguments. The root is exposed
    as the `[root]` sub-target instead, which is a pure artifact projection
    and never reaches a shell.

    `sha512` is not passed: Buck2 verifies sha1 or sha256 only. The lockfile's
    sha512 is verified by `pudu vendor` and recorded in packages.toml.
    """
    sub_targets = {"root": [root]}
    for bin_name, bin_path in bin.items():
        # A list: `unarchive` takes dict[str, list[str]].
        sub_targets["bin/" + bin_name] = [root + "/" + bin_path]

    http_archive(
        name = name,
        urls = [url],
        sha256 = sha256,
        size_bytes = size,
        type = "tar.gz",
        sub_targets = sub_targets,
        visibility = visibility or ["PUBLIC"],
    )

"#;

/// The script that lays out one tree.
pub const TREE_BUILDER: &'static str = r#"_BUILD_TREE = '''
const fs = require("fs");
const path = require("path");

const [, , manifestPath, outDir] = process.argv;
const manifest = JSON.parse(fs.readFileSync(manifestPath, "utf8"));

// Hardlink rather than copy: this is pnpm's own strategy, and it makes a
// tree cost O(entries) instead of O(bytes). The inode is shared with
// buck2's extraction output, so nothing may ever write into the tree.
// linkSync fails across a filesystem boundary; copying is the fallback.
function place(from, to) {
  const st = fs.lstatSync(from);
  if (st.isDirectory()) {
    fs.mkdirSync(to, { recursive: true });
    for (const entry of fs.readdirSync(from)) {
      place(path.join(from, entry), path.join(to, entry));
    }
  } else if (st.isSymbolicLink()) {
    place(fs.realpathSync(from), to);
  } else {
    try {
      fs.linkSync(from, to);
    } catch (e) {
      fs.copyFileSync(from, to);
    }
  }
}

for (const [dest, src] of Object.entries(manifest.copies)) {
  const d = path.join(outDir, dest);
  fs.mkdirSync(path.dirname(d), { recursive: true });
  place(Array.isArray(src) ? src.join("") : src, d);
}

for (const [dest, target] of Object.entries(manifest.links)) {
  const d = path.join(outDir, dest);
  fs.mkdirSync(path.dirname(d), { recursive: true });
  fs.symlinkSync(Array.isArray(target) ? target.join("") : target, d);
}
'''

"#;

/// The rule for one tree, up to the name of the file that lists its contents.
pub const TREE_RULE: &'static str = r#"def _node_modules_tree_impl(ctx):
    """One importer's node_modules, shaped exactly like pnpm's.

    This cannot be a `filegroup`. `copy = False` calls `symlinked_dir`, which
    makes every store leaf a symlink out of the tree; Node realpaths through
    those and sibling lookup escapes with `Cannot find module`. `copy = True`
    fails oppositely, flattening the symlink pnpm's isolation depends on. The
    real shape needs real directories and intra-tree relative symlinks from
    one action, which no `filegroup` mode provides.

    Inputs arrive as a JSON manifest, so no package name, archive root or bin
    path is ever interpolated into a command line.
    """
    out = ctx.actions.declare_output("node_modules", dir = True)
    builder = ctx.actions.write("build_tree.js", _BUILD_TREE)
    copies = {
        dest: dep[DefaultInfo].default_outputs[0]
        for dest, dep in ctx.attrs.copies.items()
    }
    manifest = ctx.actions.write_json(
        ""#;

/// The name of that file.
pub const TREE_LIST: &'static str = "tree_manifest";

/// The rest of the rule.
pub const TREE_RULE_REST: &'static str = r#".json",
        {"copies": copies, "links": ctx.attrs.links},
        with_inputs = True,
    )
    node = ctx.attrs._node_toolchain[NodeToolchainInfo].node
    ctx.actions.run(
        cmd_args(node, builder, manifest, out.as_output()),
        category = "node_modules_tree",
    )
    return [DefaultInfo(default_output = out)]

node_modules_tree = rule(
    impl = _node_modules_tree_impl,
    attrs = {
        "copies": attrs.dict(attrs.string(), attrs.dep(), default = {}),
        "links": attrs.dict(attrs.string(), attrs.string(), default = {}),
        "_node_toolchain": attrs.toolchain_dep(default = "toolchains//:node"),
    },
)
"#;

/// The macro file: the banner and the macros.
pub fn render() -> (r: String)
    ensures
        r@ == HEADER@ + PACKAGE_MACRO@ + TREE_BUILDER@ + TREE_RULE@ + TREE_LIST@ + TREE_RULE_REST@,
{
    let mut out = HEADER.to_owned();
    out.append(PACKAGE_MACRO);
    out.append(TREE_BUILDER);
    out.append(TREE_RULE);
    out.append(TREE_LIST);
    out.append(TREE_RULE_REST);
    out
}

} // verus!
