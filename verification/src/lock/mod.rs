//! Reading a pnpm lockfile.

pub mod cycles;
pub mod graph;
pub mod snapshot_key;
pub mod types;

use vstd::prelude::*;

use crate::error::{LockError, LockErrorModel, LockWarning, LockWarningModel};
use crate::lock::types::{Lockfile, LockfileModel, PackageMetaModel, Table};
use crate::text::{find_char, chars_of, index_from_finds, same, stripped, trim};
use crate::yaml::{parse_yaml, text_in, yaml_model, yaml_of, Yaml, YamlModel};

verus! {

/// The only lockfile version that is read.
pub const SUPPORTED_VERSION: &'static str = "9.0";

/// A `lockfileVersion` as the file spells it: a string (`'9.0'`) or a bare number
/// (`9.0`). Both occur.
#[derive(Debug, PartialEq)]
pub enum RawVersion {
    Str(String),
    /// A number: its shortest decimal form, and whether it is finite.
    Num { text: String, finite: bool },
}

/// What is read of a lockfile before its body.
#[derive(Debug, PartialEq)]
pub struct Probe {
    pub lockfile_version: Option<RawVersion>,
    /// `None` where the key is absent or null.
    pub patched_dependencies: Option<Yaml>,
}

/// A version as text. A whole number gets its `.0` back; a number that is not
/// finite stays as it is.
pub open spec fn version_text(v: RawVersion) -> Seq<char> {
    match v {
        RawVersion::Str(s) => s@,
        RawVersion::Num { text, finite } => if !finite || text@.contains('.') {
            text@
        } else {
            text@ + ".0"@
        },
    }
}

/// The version that was found.
pub open spec fn found_version(probe: Probe) -> Option<Seq<char>> {
    match probe.lockfile_version {
        Some(v) => Some(version_text(v)),
        None => None,
    }
}

/// Patches are declared.
pub open spec fn has_patches(probe: Probe) -> bool {
    match probe.patched_dependencies {
        Some(y) => match yaml_model(y) {
            YamlModel::Mapping(pairs) => pairs.len() > 0,
            _ => true,
        },
        None => false,
    }
}

/// A top-level key that is read, or that is safe to ignore: catalogs and overrides
/// are resolved by the time they reach the lockfile.
pub open spec fn is_known_key(k: Seq<char>) -> bool {
    ||| k == "lockfileVersion"@
    ||| k == "settings"@
    ||| k == "importers"@
    ||| k == "packages"@
    ||| k == "snapshots"@
    ||| k == "catalogs"@
    ||| k == "catalog"@
    ||| k == "overrides"@
    ||| k == "patchedDependencies"@
    ||| k == "time"@
    ||| k == "packageExtensionsChecksum"@
    ||| k == "pnpmfileChecksum"@
    ||| k == "ignoredOptionalDependencies"@
}

/// One warning per unknown key among the first `n`, in document order.
pub open spec fn unknown_keys(pairs: Seq<(YamlModel, YamlModel)>, n: int) -> Seq<LockWarningModel>
    decreases n,
{
    if n <= 0 {
        Seq::empty()
    } else {
        let before = unknown_keys(pairs, n - 1);
        match text_in(pairs[n - 1].0) {
            Some(k) => if is_known_key(k) {
                before
            } else {
                before.push(LockWarningModel::UnknownTopLevelKey { key: k })
            },
            None => before,
        }
    }
}

/// The warnings for a document's unknown keys: none where it is no mapping.
pub open spec fn document_warnings(doc: Result<YamlModel, Seq<char>>) -> Seq<LockWarningModel> {
    match doc {
        Ok(YamlModel::Mapping(pairs)) => unknown_keys(pairs, pairs.len() as int),
        _ => Seq::empty(),
    }
}

/// The warnings for those of the first `n` packages that are deprecated.
pub open spec fn deprecations(packages: Table<PackageMetaModel>, n: int) -> Seq<LockWarningModel>
    decreases n,
{
    if n <= 0 {
        Seq::empty()
    } else {
        let before = deprecations(packages, n - 1);
        match packages[n - 1].1.deprecated {
            Some(message) => before.push(
                LockWarningModel::DeprecatedPackage {
                    key: packages[n - 1].0,
                    message: stripped(message),
                },
            ),
            None => before,
        }
    }
}

/// What reading a lockfile comes to. The version is looked at before the body: an
/// older lockfile would otherwise fail with a confusing error about its shape.
pub open spec fn lockfile_result(
    doc: Result<YamlModel, Seq<char>>,
    path: Seq<char>,
    probe: Result<Probe, String>,
    body: Result<Lockfile, String>,
) -> Result<(LockfileModel, Seq<LockWarningModel>), LockErrorModel> {
    match probe {
        Err(source) => Err(LockErrorModel::Yaml { path, source: source@ }),
        Ok(probe) => if found_version(probe) != Some(SUPPORTED_VERSION@) {
            Err(LockErrorModel::UnsupportedVersion { found: found_version(probe) })
        } else if has_patches(probe) {
            Err(LockErrorModel::PatchedDependencies)
        } else {
            match body {
                Err(source) => Err(LockErrorModel::Yaml { path, source: source@ }),
                Ok(l) => if l.settings.exclude_links_from_lockfile {
                    Err(LockErrorModel::ExcludedLinks)
                } else {
                    let packages = l.deep_view().packages;
                    Ok(
                        (
                            LockfileModel {
                                lockfile_version: SUPPORTED_VERSION@,
                                ..l.deep_view()
                            },
                            document_warnings(doc) + deprecations(packages, packages.len() as int),
                        ),
                    )
                },
            }
        },
    }
}

impl RawVersion {
    /// The version as text.
    pub fn normalize(&self) -> (r: String)
        ensures
            r@ == version_text(*self),
    {
        match self {
            RawVersion::Str(s) => s.clone(),
            RawVersion::Num { text, finite } => {
                let chars = chars_of(text.as_str());
                let dot = find_char(&chars, '.', 0);
                proof {
                    index_from_finds(text@, '.', 0);
                }
                let mut out = text.clone();
                if *finite && dot == chars.len() {
                    out.append(".0");
                }
                out
            },
        }
    }
}

fn known_key(k: &str) -> (r: bool)
    ensures
        r == is_known_key(k@),
{
    same(k, "lockfileVersion") || same(k, "settings") || same(k, "importers") || same(k, "packages")
        || same(k, "snapshots") || same(k, "catalogs") || same(k, "catalog") || same(k, "overrides")
        || same(k, "patchedDependencies") || same(k, "time") || same(
        k,
        "packageExtensionsChecksum",
    ) || same(k, "pnpmfileChecksum") || same(k, "ignoredOptionalDependencies")
}

/// Warn once per unrecognised top-level key of a document, in document order.
pub fn top_level_warnings(doc: &Yaml) -> (r: Vec<LockWarning>)
    ensures
        r.deep_view() == document_warnings(Ok(yaml_model(*doc))),
{
    let ghost m = yaml_model(*doc);
    let mut out: Vec<LockWarning> = Vec::new();
    assert(out.deep_view() =~= Seq::<LockWarningModel>::empty());
    match doc {
        Yaml::Mapping(pairs) => {
            let ghost ps = m->Mapping_0;
            let mut i: usize = 0;
            while i < pairs.len()
                invariant
                    m == yaml_model(Yaml::Mapping(*pairs)),
                    m == YamlModel::Mapping(ps),
                    ps.len() == pairs.len(),
                    i <= pairs.len(),
                    out.deep_view() == unknown_keys(ps, i as int),
                decreases pairs.len() - i,
            {
                assert(ps[i as int].0 == yaml_model(pairs@[i as int].0));
                let ghost prior = out.deep_view();
                if let Some(k) = pairs[i].0.as_str() {
                    if !known_key(k) {
                        out.push(LockWarning::UnknownTopLevelKey { key: k.clone() });
                        assert(out.deep_view() =~= prior.push(
                            LockWarningModel::UnknownTopLevelKey { key: k@ },
                        ));
                    }
                }
                i += 1;
            }
        },
        _ => {},
    }
    out
}

/// Warn once per unrecognised top-level key of a lockfile's text.
fn unknown_top_level_warnings(text: &str) -> (r: Vec<LockWarning>)
    ensures
        r.deep_view() == document_warnings(yaml_of(text@)),
{
    match parse_yaml(text) {
        Ok(doc) => top_level_warnings(&doc),
        Err(_) => {
            let out: Vec<LockWarning> = Vec::new();
            assert(out.deep_view() =~= Seq::<LockWarningModel>::empty());
            out
        },
    }
}

/// Validate a lockfile, given the parser's results on what is read first and on the
/// whole of it.
///
/// Returns the lockfile with any non-fatal warnings.
pub fn parse_lockfile(
    text: &str,
    path: &str,
    probe: Result<Probe, String>,
    body: Result<Lockfile, String>,
) -> (r: Result<(Lockfile, Vec<LockWarning>), LockError>)
    ensures
        match (lockfile_result(yaml_of(text@), path@, probe, body), r) {
            (Ok((m, ws)), Ok((l, warnings))) => l.deep_view() == m && warnings.deep_view() == ws,
            (Err(m), Err(e)) => e.deep_view() == m,
            _ => false,
        },
{
    match accept_lockfile(path, probe, body) {
        Err(e) => Err(e),
        Ok((lockfile, deprecated)) => {
            let mut warnings = unknown_top_level_warnings(text);
            let ghost unknown = warnings.deep_view();
            let ghost rest = deprecated.deep_view();
            let mut deprecated = deprecated;
            warnings.append(&mut deprecated);
            assert(warnings.deep_view() =~= unknown + rest);
            Ok((lockfile, warnings))
        },
    }
}

/// Validates all of a lockfile but its top-level keys.
pub fn accept_lockfile(path: &str, probe: Result<Probe, String>, body: Result<Lockfile, String>) -> (r:
    Result<(Lockfile, Vec<LockWarning>), LockError>)
    ensures
        match (lockfile_result(Ok(YamlModel::Null), path@, probe, body), r) {
            (Ok((m, ws)), Ok((l, warnings))) => {
                &&& l.deep_view() == m
                &&& warnings.deep_view() == ws
                &&& ws == deprecations(m.packages, m.packages.len() as int)
            },
            (Err(m), Err(e)) => e.deep_view() == m,
            _ => false,
        },
{
    let probe = match probe {
        Ok(p) => p,
        Err(source) => {
            return Err(LockError::Yaml { path: path.to_owned(), source });
        },
    };
    let found = match &probe.lockfile_version {
        Some(v) => Some(v.normalize()),
        None => None,
    };
    let supported = match &found {
        Some(v) => same(v.as_str(), SUPPORTED_VERSION),
        None => false,
    };
    if !supported {
        return Err(LockError::UnsupportedVersion { found });
    }
    let patched = match &probe.patched_dependencies {
        Some(y) => match y {
            Yaml::Mapping(pairs) => pairs.len() > 0,
            _ => true,
        },
        None => false,
    };
    if patched {
        return Err(LockError::PatchedDependencies);
    }
    let body = match body {
        Ok(l) => l,
        Err(source) => {
            return Err(LockError::Yaml { path: path.to_owned(), source });
        },
    };
    if body.settings.exclude_links_from_lockfile {
        return Err(LockError::ExcludedLinks);
    }
    let lockfile = Lockfile {
        lockfile_version: SUPPORTED_VERSION.to_owned(),
        settings: body.settings,
        importers: body.importers,
        packages: body.packages,
        snapshots: body.snapshots,
    };
    let ghost packages = lockfile.packages.deep_view();
    let mut warnings: Vec<LockWarning> = Vec::new();
    let mut i: usize = 0;
    assert(warnings.deep_view() =~= deprecations(packages, 0));
    while i < lockfile.packages.len()
        invariant
            packages == lockfile.packages.deep_view(),
            i <= packages.len(),
            warnings.deep_view() == deprecations(packages, i as int),
        decreases packages.len() - i,
    {
        let meta = lockfile.packages.value(i);
        assert(packages[i as int] == (lockfile.packages@[i as int].0@, meta.deep_view()));
        let ghost prior = warnings.deep_view();
        if let Some(message) = &meta.deprecated {
            let message = trim(message.as_str());
            let ghost text = message@;
            warnings.push(
                LockWarning::DeprecatedPackage { key: lockfile.packages.key(i).clone(), message },
            );
            assert(warnings.deep_view() =~= prior.push(
                LockWarningModel::DeprecatedPackage { key: packages[i as int].0, message: text },
            ));
        }
        i += 1;
    }
    proof {
        let ws = deprecations(packages, packages.len() as int);
        assert(document_warnings(Ok(YamlModel::Null)) + ws =~= ws);
    }
    Ok((lockfile, warnings))
}

/// A lockfile that is accepted reports the supported version and was not written
/// without its links.
pub proof fn accepted_lockfile_is_supported(
    doc: Result<YamlModel, Seq<char>>,
    path: Seq<char>,
    probe: Result<Probe, String>,
    body: Result<Lockfile, String>,
)
    requires
        lockfile_result(doc, path, probe, body) is Ok,
    ensures
        lockfile_result(doc, path, probe, body)->Ok_0.0.lockfile_version == SUPPORTED_VERSION@,
        !lockfile_result(doc, path, probe, body)->Ok_0.0.settings.exclude_links_from_lockfile,
        probe is Ok,
        !has_patches(probe->Ok_0),
{
}

/// A version that is spelled as a number reads like one that is spelled as a text: it has
/// a fraction, and a number that has one is taken as it is.
pub proof fn versions_read_alike(text: String)
    ensures
        version_text(RawVersion::Str(text)) == text@,
        version_text(RawVersion::Num { text, finite: true }).contains('.'),
        text@.is_prefix_of(version_text(RawVersion::Num { text, finite: true })),
        text@.contains('.') ==> version_text(RawVersion::Num { text, finite: true }) == text@,
        version_text(RawVersion::Num { text, finite: false }) == text@,
        text@ == seq!['9'] ==> version_text(RawVersion::Num { text, finite: true })
            == SUPPORTED_VERSION@,
{
    reveal_strlit(".0");
    reveal_strlit("9.0");
    let v = version_text(RawVersion::Num { text, finite: true });
    if !text@.contains('.') {
        assert(v[text@.len() as int] == '.');
        assert(text@ =~= v.take(text@.len() as int));
    }
    if text@ == seq!['9'] {
        assert(text@[0] == '9');
        assert(v =~= SUPPORTED_VERSION@);
    }
}

/// A lockfile is accepted exactly where it has the supported version, declares no
/// patches, can be read, and was written with its links; what is accepted is what was
/// read, under that version.
pub proof fn only_a_sound_lockfile_is_accepted(
    doc: Result<YamlModel, Seq<char>>,
    path: Seq<char>,
    probe: Result<Probe, String>,
    body: Result<Lockfile, String>,
)
    ensures
        lockfile_result(doc, path, probe, body) is Ok <==> {
            &&& probe is Ok
            &&& found_version(probe->Ok_0) == Some(seq!['9', '.', '0'])
            &&& probe->Ok_0.patched_dependencies is None || yaml_model(
                probe->Ok_0.patched_dependencies->Some_0,
            ) == YamlModel::Mapping(Seq::empty())
            &&& body is Ok
            &&& !body->Ok_0.settings.exclude_links_from_lockfile
        },
        lockfile_result(doc, path, probe, body) is Ok ==> {
            let read = body->Ok_0.deep_view();
            let kept = lockfile_result(doc, path, probe, body)->Ok_0.0;
            &&& kept.lockfile_version == seq!['9', '.', '0']
            &&& kept.settings == read.settings
            &&& kept.importers == read.importers
            &&& kept.packages == read.packages
            &&& kept.snapshots == read.snapshots
        },
        probe is Ok && found_version(probe->Ok_0) != Some(seq!['9', '.', '0']) ==> lockfile_result(
            doc,
            path,
            probe,
            body,
        ) == Err::<(LockfileModel, Seq<LockWarningModel>), LockErrorModel>(
            LockErrorModel::UnsupportedVersion { found: found_version(probe->Ok_0) },
        ),
{
    reveal_strlit("9.0");
    assert(SUPPORTED_VERSION@ =~= seq!['9', '.', '0']);
    if let Ok(p) = probe {
        if let Some(y) = p.patched_dependencies {
            if let YamlModel::Mapping(pairs) = yaml_model(y) {
                if pairs.len() == 0 {
                    assert(pairs =~= Seq::empty());
                }
            }
        }
    }
}

/// The top-level keys that are read, and those that are safe to ignore.
pub open spec fn known_words() -> Seq<Seq<char>> {
    seq![
        "lockfileVersion"@,
        "settings"@,
        "importers"@,
        "packages"@,
        "snapshots"@,
        "catalogs"@,
        "catalog"@,
        "overrides"@,
        "patchedDependencies"@,
        "time"@,
        "packageExtensionsChecksum"@,
        "pnpmfileChecksum"@,
        "ignoredOptionalDependencies"@,
    ]
}

proof fn unknown_keys_are(pairs: Seq<(YamlModel, YamlModel)>, n: int, w: LockWarningModel)
    requires
        0 <= n <= pairs.len(),
    ensures
        unknown_keys(pairs, n).contains(w) <==> w is UnknownTopLevelKey && !known_words().contains(
            w->UnknownTopLevelKey_key,
        ) && exists|i: int|
            0 <= i < n && text_in((#[trigger] pairs[i]).0) == Some(w->UnknownTopLevelKey_key),
    decreases n,
{
    broadcast use vstd::seq_lib::lemma_seq_contains_after_push;

    if n > 0 {
        unknown_keys_are(pairs, n - 1, w);
        if let Some(k) = text_in(pairs[n - 1].0) {
            let words = known_words();
            if is_known_key(k) {
                assert(words[0] == k || words[1] == k || words[2] == k || words[3] == k || words[4]
                    == k || words[5] == k || words[6] == k || words[7] == k || words[8] == k
                    || words[9] == k || words[10] == k || words[11] == k || words[12] == k);
            }
            assert(is_known_key(k) <==> words.contains(k));
        }
    }
}

proof fn deprecations_are(packages: Table<PackageMetaModel>, n: int, w: LockWarningModel)
    requires
        0 <= n <= packages.len(),
    ensures
        deprecations(packages, n).contains(w) <==> w is DeprecatedPackage && exists|i: int|
            0 <= i < n && (#[trigger] packages[i]).0 == w->DeprecatedPackage_key
                && packages[i].1.deprecated is Some && w->message == stripped(
                packages[i].1.deprecated->Some_0,
            ),
    decreases n,
{
    broadcast use vstd::seq_lib::lemma_seq_contains_after_push;

    if n > 0 {
        deprecations_are(packages, n - 1, w);
    }
}

/// A lockfile that is accepted is warned about exactly where it has a key that is not
/// known, and for each of its packages that is deprecated.
pub proof fn warnings_tell_of_keys_and_deprecations(
    doc: Result<YamlModel, Seq<char>>,
    path: Seq<char>,
    probe: Result<Probe, String>,
    body: Result<Lockfile, String>,
    w: LockWarningModel,
)
    requires
        lockfile_result(doc, path, probe, body) is Ok,
    ensures
        lockfile_result(doc, path, probe, body)->Ok_0.1.contains(w) <==> match w {
            LockWarningModel::UnknownTopLevelKey { key } => {
                &&& doc is Ok
                &&& doc->Ok_0 is Mapping
                &&& !known_words().contains(key)
                &&& exists|i: int|
                    0 <= i < doc->Ok_0->Mapping_0.len() && text_in(
                        (#[trigger] doc->Ok_0->Mapping_0[i]).0,
                    ) == Some(key)
            },
            LockWarningModel::DeprecatedPackage { key, message } => {
                let packages = body->Ok_0.deep_view().packages;
                exists|i: int|
                    0 <= i < packages.len() && (#[trigger] body->Ok_0.deep_view().packages[i]).0
                        == key && packages[i].1.deprecated is Some && message == stripped(
                        packages[i].1.deprecated->Some_0,
                    )
            },
        },
{
    broadcast use vstd::seq_lib::lemma_seq_concat_contains_all_elements;

    let packages = body->Ok_0.deep_view().packages;
    deprecations_are(packages, packages.len() as int, w);
    if let Ok(YamlModel::Mapping(pairs)) = doc {
        unknown_keys_are(pairs, pairs.len() as int, w);
    }
}

} // verus!
