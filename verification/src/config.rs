//! What `pudu.toml` configures.

use vstd::prelude::*;

use crate::config_doc::{doc_raw, read_raw, RawModel};
use crate::dict::{as_map, increases_when_sorted, keys_increase, put_all, Dict, NameSet};
use crate::error::{ConfigError, ConfigErrorModel, ConfigWarning, ConfigWarningModel};
use crate::lock::types::Table;
use crate::paths::pieces_hold_no_separator;
use crate::platform::{Cpu, Libc, Os};
use crate::tarball::{fits_a_url, fits_is_safe, is_url_safe, url_safe};
use crate::text::{
    chars_of, find, find_char, find_from, find_is_first, index_from, index_from_finds,
    index_from_first, index_from_is, is_space, join_split, join_with, occurs_at, same, space, split,
    split_joined, split_not_empty, split_on, split_plain, starts_with, strip_prefix, text_of,
};
use crate::toml_doc::{
    parse_toml, parsed_model, reads_plainly, toml_of, Toml, TomlModel,
};

verus! {

/// A platform to build for.
#[derive(Debug, Clone, PartialEq, Eq)]
pub struct Platform {
    pub os: Os,
    pub cpu: Cpu,
    pub libc: Option<Libc>,
    /// Escape hatch: replaces the generated Buck constraint labels.
    pub constraints: Option<Vec<String>>,
}

/// The mathematical value of a [`Platform`].
pub struct PlatformModel {
    pub os: Os,
    pub cpu: Cpu,
    pub libc: Option<Libc>,
    pub constraints: Option<Seq<Seq<char>>>,
}

impl DeepView for Platform {
    type V = PlatformModel;

    open spec fn deep_view(&self) -> PlatformModel {
        PlatformModel {
            os: self.os,
            cpu: self.cpu,
            libc: self.libc,
            constraints: self.constraints.deep_view(),
        }
    }
}

/// The normal form of a text that is a URL.
pub uninterp spec fn url_text(raw: Seq<char>) -> Option<Seq<char>>;

/// A host name made of lower-case letters, in labels joined by dots.
pub open spec fn plain_host(h: Seq<char>) -> bool {
    &&& 0 < h.len() < 254
    &&& h[0] != '.'
    &&& h.last() != '.'
    &&& forall|i: int| 0 <= i < h.len() ==> 'a' <= #[trigger] h[i] <= 'z' || h[i] == '.'
    &&& forall|i: int, j: int|
        0 <= i && j == i + 1 && j < h.len() && #[trigger] h[i] == '.' ==> #[trigger] h[j] != '.'
}

/// `https://` and a plain host, nothing behind it.
pub open spec fn plain_origin(raw: Seq<char>) -> bool {
    "https://"@.is_prefix_of(raw) && plain_host(raw.skip("https://"@.len() as int))
}

/// `url::Url::parse`: whether a text is a URL, and its normal form, is a function
/// of the text. An origin with a plain host is one, and its normal form ends in a slash.
#[verifier::external_body]
fn parse_url(raw: &str) -> (r: Option<String>)
    ensures
        match r {
            Some(text) => url_text(raw@) == Some(text@),
            None => url_text(raw@) is None,
        },
        plain_origin(raw@) ==> r is Some && r->Some_0@ == raw@ + "/"@,
{
    match url::Url::parse(raw) {
        Ok(u) => Some(u.to_string()),
        Err(_) => None,
    }
}

/// An absolute URL in normal form.
#[derive(Debug, Clone, PartialEq, Eq)]
pub struct Url {
    text: String,
}

impl View for Url {
    type V = Seq<char>;

    closed spec fn view(&self) -> Seq<char> {
        self.text@
    }
}

impl DeepView for Url {
    type V = Seq<char>;

    open spec fn deep_view(&self) -> Seq<char> {
        self@
    }
}

impl Url {
    /// Reads a URL.
    pub fn parse(raw: &str) -> (r: Option<Url>)
        ensures
            match r {
                Some(u) => url_text(raw@) == Some(u@),
                None => url_text(raw@) is None,
            },
            plain_origin(raw@) ==> r is Some && r->Some_0@ == raw@ + "/"@,
    {
        match parse_url(raw) {
            Some(text) => Some(Url { text }),
            None => None,
        }
    }

    /// The URL as text.
    pub fn as_str(&self) -> (r: &str)
        ensures
            r@ == self@,
    {
        self.text.as_str()
    }
}

/// Where packages are fetched from.
#[derive(Debug, PartialEq)]
pub struct RegistryConfig {
    pub default: Url,
    /// Registries for single scopes, `@scope` to URL.
    pub scopes: Dict<Url>,
}

/// The mathematical value of a [`RegistryConfig`].
pub struct RegistryModel {
    pub default: Seq<char>,
    pub scopes: Table<Seq<char>>,
}

impl DeepView for RegistryConfig {
    type V = RegistryModel;

    open spec fn deep_view(&self) -> RegistryModel {
        RegistryModel { default: self.default@, scopes: self.scopes.deep_view() }
    }
}

/// Where fixups come from.
#[derive(Debug, PartialEq, Eq)]
pub enum FixupRegistry {
    /// No registry: `none`.
    Disabled,
    File(String),
    Github { owner: String, repo: String },
}

/// The mathematical value of a [`FixupRegistry`].
pub enum FixupRegistryModel {
    Disabled,
    File(Seq<char>),
    Github { owner: Seq<char>, repo: Seq<char> },
}

impl DeepView for FixupRegistry {
    type V = FixupRegistryModel;

    open spec fn deep_view(&self) -> FixupRegistryModel {
        match self {
            FixupRegistry::Disabled => FixupRegistryModel::Disabled,
            FixupRegistry::File(path) => FixupRegistryModel::File(path@),
            FixupRegistry::Github { owner, repo } => FixupRegistryModel::Github {
                owner: owner@,
                repo: repo@,
            },
        }
    }
}

#[derive(Debug, PartialEq, Eq)]
pub struct FixupsConfig {
    pub registry: FixupRegistry,
    pub registry_rev: Option<String>,
    pub allow_local_overrides: bool,
}

/// Packages whose install scripts are acknowledged.
#[derive(Debug, PartialEq)]
pub struct ScriptsConfig {
    pub allow: NameSet,
}

#[derive(Debug, PartialEq, Eq)]
pub struct BuckConfig {
    pub file_name: String,
    pub node_toolchain: String,
}

/// The whole configuration.
#[derive(Debug, PartialEq)]
pub struct Config {
    pub lockfile_path: String,
    pub third_party_dir: String,
    pub platforms: Dict<Platform>,
    pub registry: RegistryConfig,
    pub fixups: FixupsConfig,
    pub scripts: ScriptsConfig,
    pub buck: BuckConfig,
}

/// The configuration as the file spells it, with defaults for what it omits.
#[derive(Debug, PartialEq)]
pub struct RawConfig {
    pub lockfile_path: String,
    pub third_party_dir: String,
    pub platforms: Dict<Platform>,
    pub registry: RegistryConfig,
    pub fixup_registry: String,
    pub registry_rev: Option<String>,
    pub allow_local_overrides: bool,
    pub scripts_allow: NameSet,
    pub buck: BuckConfig,
}

pub fn default_third_party_dir() -> (r: String)
    ensures
        r@ == "third-party/js"@,
{
    "third-party/js".to_owned()
}

proof fn npm_registry_is_plain()
    ensures
        plain_origin("https://registry.npmjs.org"@),
        "https://registry.npmjs.org"@ + "/"@ == "https://registry.npmjs.org/"@,
{
    reveal_strlit("https://");
    reveal_strlit("https://registry.npmjs.org");
    reveal_strlit("https://registry.npmjs.org/");
    reveal_strlit("/");
    assert("https://registry.npmjs.org"@ + "/"@ =~= "https://registry.npmjs.org/"@);
}

/// The public npm registry.
pub fn default_registry_url() -> (r: Url)
    ensures
        r@ == "https://registry.npmjs.org/"@,
        url_text("https://registry.npmjs.org"@) == Some(r@),
{
    proof {
        npm_registry_is_plain();
    }
    Url::parse("https://registry.npmjs.org").unwrap()
}

pub fn default_file_name() -> (r: String)
    ensures
        r@ == "BUCK"@,
{
    "BUCK".to_owned()
}

pub fn default_node_toolchain() -> (r: String)
    ensures
        r@ == "toolchains//:node"@,
{
    "toolchains//:node".to_owned()
}

pub fn default_fixup_registry() -> (r: String)
    ensures
        r@ == "none"@,
{
    "none".to_owned()
}

/// What a `[fixups].registry` value names, if it is one of the known forms.
pub open spec fn fixup_registry_of(value: Seq<char>) -> Option<FixupRegistryModel> {
    if value == "none"@ {
        Some(FixupRegistryModel::Disabled)
    } else if "file://"@.is_prefix_of(value) {
        Some(FixupRegistryModel::File(value.skip("file://"@.len() as int)))
    } else if "github.com/"@.is_prefix_of(value) {
        let parts = split_on(value.skip("github.com/"@.len() as int), '/');
        if parts.len() == 2 && parts[0].len() > 0 && parts[1].len() > 0 {
            Some(FixupRegistryModel::Github { owner: parts[0], repo: parts[1] })
        } else {
            None
        }
    } else {
        None
    }
}

/// Reads a `[fixups].registry` value.
pub fn parse_fixup_registry(value: &str) -> (r: Result<FixupRegistry, ConfigError>)
    ensures
        match (fixup_registry_of(value@), r) {
            (Some(m), Ok(f)) => f.deep_view() == m,
            (None, Err(e)) => e.deep_view() == ConfigErrorModel::BadFixupRegistry { value: value@ },
            _ => false,
        },
{
    if same(value, "none") {
        return Ok(FixupRegistry::Disabled);
    }
    if let Some(rest) = strip_prefix(value, "file://") {
        return Ok(FixupRegistry::File(rest));
    }
    if let Some(rest) = strip_prefix(value, "github.com/") {
        let parts = split(rest.as_str(), '/');
        let ghost ps = split_on(rest@, '/');
        if parts.len() == 2 {
            assert(ps[0] == parts@[0]@ && ps[1] == parts@[1]@);
            if !parts[0].as_str().is_empty() && !parts[1].as_str().is_empty() {
                return Ok(
                    FixupRegistry::Github { owner: parts[0].clone(), repo: parts[1].clone() },
                );
            }
        }
    }
    Err(ConfigError::BadFixupRegistry { value: value.to_owned() })
}

/// What these values configure, or what is wrong with them.
pub open spec fn raw_config(raw: RawConfig, r: Result<Config, ConfigError>) -> bool {
    match (fixup_registry_of(raw.fixup_registry@), r) {
        (Some(m), Ok(c)) => {
            &&& c.lockfile_path == raw.lockfile_path
            &&& c.third_party_dir == raw.third_party_dir
            &&& c.platforms == raw.platforms
            &&& c.registry == raw.registry
            &&& c.fixups.registry.deep_view() == m
            &&& c.fixups.registry_rev == raw.registry_rev
            &&& c.fixups.allow_local_overrides == raw.allow_local_overrides
            &&& c.scripts.allow == raw.scripts_allow
            &&& c.buck == raw.buck
        },
        (None, Err(e)) => e.deep_view() == (ConfigErrorModel::BadFixupRegistry {
            value: raw.fixup_registry@,
        }),
        _ => false,
    }
}

/// What a document configures that spells this out, or what is wrong with it.
pub open spec fn spelled_config(m: RawModel, r: Result<Config, ConfigError>) -> bool {
    match (fixup_registry_of(m.fixup_registry), r) {
        (Some(fixups), Ok(c)) => {
            &&& c.lockfile_path@ == m.lockfile_path
            &&& c.third_party_dir@ == m.third_party_dir
            &&& keys_increase(c.platforms.deep_view())
            &&& as_map(c.platforms.deep_view()) == put_all(
                Map::<Seq<char>, PlatformModel>::empty(),
                m.platforms,
            )
            &&& c.registry.default@ == m.default
            &&& as_map(c.registry.scopes.deep_view()) == put_all(
                Map::<Seq<char>, Seq<char>>::empty(),
                m.scopes,
            )
            &&& c.fixups.registry.deep_view() == fixups
            &&& c.fixups.registry_rev.deep_view() == m.registry_rev
            &&& c.fixups.allow_local_overrides == m.allow_local_overrides
            &&& c.scripts.allow.deep_view().to_set() == m.scripts_allow.to_set()
            &&& c.buck.file_name@ == m.file_name
            &&& c.buck.node_toolchain@ == m.node_toolchain
        },
        (None, Err(e)) => e.deep_view() == (ConfigErrorModel::BadFixupRegistry {
            value: m.fixup_registry,
        }),
        _ => false,
    }
}

/// What a parsed file configures, or what is wrong with it. A document that spells a
/// configuration out is that configuration. Of any other document `reading` decides: what
/// a reader of these fields made of the file, or its complaint.
pub open spec fn document_config(
    parsed: Result<TomlModel, Seq<char>>,
    reading: Result<RawConfig, String>,
    path: Seq<char>,
    r: Result<Config, ConfigError>,
) -> bool {
    match parsed_raw(parsed) {
        Some(m) => spelled_config(m, r),
        None => match reading {
            Ok(raw) => raw_config(raw, r),
            Err(source) => r is Err && r->Err_0.deep_view() == (ConfigErrorModel::Parse {
                path,
                source: source@,
            }),
        },
    }
}

/// What a parsed file spells out, if it is a document that does.
pub open spec fn parsed_raw(parsed: Result<TomlModel, Seq<char>>) -> Option<RawModel> {
    match parsed {
        Ok(doc) => doc_raw(doc),
        Err(_) => None,
    }
}

/// What a file configures, or what is wrong with it. What a plain document holds is known.
pub open spec fn file_config(
    text: Seq<char>,
    reading: Result<RawConfig, String>,
    path: Seq<char>,
    r: Result<Config, ConfigError>,
) -> bool {
    &&& document_config(toml_of(text), reading, path, r)
    &&& reads_plainly(text, toml_of(text))
}

impl Config {
    /// The configuration in a file, or what is wrong with the file. `reading` is what a
    /// reader of the fields of [`RawConfig`] made of the text, or its complaint; it decides
    /// where the text does not spell a configuration out as a document of plain values.
    /// `path` is used only for error messages.
    pub fn from_str(text: &str, reading: Result<RawConfig, String>, path: &str) -> (r: Result<
        Config,
        ConfigError,
    >)
        ensures
            file_config(text@, reading, path@, r),
    {
        Config::from_document(&parse_toml(text), reading, path)
    }

    /// The configuration that a parsed file gives, or what is wrong with the file.
    pub fn from_document(
        parsed: &Result<Toml, String>,
        reading: Result<RawConfig, String>,
        path: &str,
    ) -> (r: Result<Config, ConfigError>)
        ensures
            document_config(parsed_model(*parsed), reading, path@, r),
    {
        let spelled = match parsed {
            Ok(doc) => read_raw(doc),
            Err(_) => None,
        };
        match spelled {
            Some(raw) => {
                proof {
                    use_type_invariant(&raw.platforms);
                    increases_when_sorted(raw.platforms);
                }
                Config::from_raw(raw)
            },
            None => match reading {
                Ok(raw) => Config::from_raw(raw),
                Err(source) => Err(ConfigError::Parse { path: path.to_owned(), source }),
            },
        }
    }

    /// The configuration with these values, if `[fixups].registry` is one of the known forms.
    pub fn from_raw(raw: RawConfig) -> (r: Result<Config, ConfigError>)
        ensures
            raw_config(raw, r),
    {
        let registry = match parse_fixup_registry(raw.fixup_registry.as_str()) {
            Ok(f) => f,
            Err(e) => {
                return Err(e);
            },
        };
        Ok(
            Config {
                lockfile_path: raw.lockfile_path,
                third_party_dir: raw.third_party_dir,
                platforms: raw.platforms,
                registry: raw.registry,
                fixups: FixupsConfig {
                    registry,
                    registry_rev: raw.registry_rev,
                    allow_local_overrides: raw.allow_local_overrides,
                },
                scripts: ScriptsConfig { allow: raw.scripts_allow },
                buck: raw.buck,
            },
        )
    }
}

// --- Validation -----------------------------------------------------------------------

/// Two platforms that stand for the same machine.
pub open spec fn same_machine(a: PlatformModel, b: PlatformModel) -> bool {
    a.os == b.os && a.cpu == b.cpu && a.libc == b.libc
}

/// A text without white space.
pub open spec fn no_space(s: Seq<char>) -> bool {
    forall|i: int| 0 <= i < s.len() ==> !is_space(#[trigger] s[i])
}

/// A Buck target label: `cell//path:target`.
pub open spec fn is_label(s: Seq<char>) -> bool {
    match find_from(s, "//"@, 0) {
        None => false,
        Some(k) => {
            let rest = s.skip(k + 2);
            let colon = index_from(rest, ':', 0);
            &&& no_space(s)
            &&& colon + 1 < rest.len()
            &&& index_from(rest, ':', colon + 1) == rest.len()
        },
    }
}

/// What is wrong with the first `n` constraint labels of a platform.
pub open spec fn label_errors(name: Seq<char>, labels: Seq<Seq<char>>, n: int) -> Seq<
    ConfigErrorModel,
>
    decreases n,
{
    if n <= 0 {
        Seq::empty()
    } else if is_label(labels[n - 1]) {
        label_errors(name, labels, n - 1)
    } else {
        label_errors(name, labels, n - 1).push(
            ConfigErrorModel::BadConstraintLabel { platform: name, label: labels[n - 1] },
        )
    }
}

/// What is wrong with one platform by itself.
pub open spec fn platform_errors(name: Seq<char>, p: PlatformModel) -> Seq<ConfigErrorModel> {
    (if p.os is Win32 {
        seq![ConfigErrorModel::WindowsUnsupported { platform: name }]
    } else {
        Seq::empty()
    }) + (if p.libc is Some && !(p.os is Linux) {
        seq![ConfigErrorModel::LibcOnNonLinux { platform: name }]
    } else {
        Seq::empty()
    }) + match p.constraints {
        Some(labels) => label_errors(name, labels, labels.len() as int),
        None => Seq::empty(),
    }
}

/// The first of the first `n` platforms that stands for the same machine.
pub open spec fn first_same(platforms: Table<PlatformModel>, p: PlatformModel, n: int) -> Option<
    Seq<char>,
>
    decreases n,
{
    if n <= 0 {
        None
    } else if first_same(platforms, p, n - 1) is Some {
        first_same(platforms, p, n - 1)
    } else if same_machine(platforms[n - 1].1, p) {
        Some(platforms[n - 1].0)
    } else {
        None
    }
}

/// What is wrong with the first `n` platforms, each by itself and against those
/// before it.
pub open spec fn platforms_errors(platforms: Table<PlatformModel>, n: int) -> Seq<ConfigErrorModel>
    decreases n,
{
    if n <= 0 {
        Seq::empty()
    } else {
        let (name, p) = platforms[n - 1];
        platforms_errors(platforms, n - 1) + platform_errors(name, p) + match first_same(
            platforms,
            p,
            n - 1,
        ) {
            Some(first) => seq![ConfigErrorModel::DuplicatePlatform { first, second: name }],
            None => Seq::empty(),
        }
    }
}

/// An address that can be fetched over the network.
pub open spec fn is_http(url: Seq<char>) -> bool {
    "http://"@.is_prefix_of(url) || "https://"@.is_prefix_of(url)
}

/// What is wrong with the registry under a key.
pub open spec fn registry_errors(key: Seq<char>, url: Seq<char>) -> Seq<ConfigErrorModel> {
    if is_http(url) {
        Seq::empty()
    } else {
        seq![ConfigErrorModel::BadRegistryUrl { key, url }]
    }
}

/// What is wrong with the first `n` scopes.
pub open spec fn scope_errors(scopes: Table<Seq<char>>, n: int) -> Seq<ConfigErrorModel>
    decreases n,
{
    if n <= 0 {
        Seq::empty()
    } else {
        let (scope, url) = scopes[n - 1];
        scope_errors(scopes, n - 1) + (if scope.len() > 0 && scope[0] == '@' {
            Seq::empty()
        } else {
            seq![ConfigErrorModel::BadRegistryScope { scope }]
        }) + registry_errors(scope, url)
    }
}

/// What is wrong with where fixups come from.
pub open spec fn fixup_errors(registry: FixupRegistryModel) -> Seq<ConfigErrorModel> {
    match registry {
        FixupRegistryModel::File(path) => if path.len() > 0 && path[0] == '/' {
            Seq::empty()
        } else {
            seq![ConfigErrorModel::BadFixupRegistryPath { value: "file://"@ + path }]
        },
        _ => Seq::empty(),
    }
}

/// A segment of an npm package name: characters that a URL needs no escapes for, and no
/// dot in front.
pub open spec fn is_name_segment(s: Seq<char>) -> bool {
    s.len() > 0 && url_safe(s) && s[0] != '.'
}

/// An npm package name: one segment, not reserved and without an underscore in front, or
/// a segment below a scope.
pub open spec fn is_package_name(name: Seq<char>) -> bool {
    let parts = split_on(name, '/');
    if parts.len() == 1 {
        &&& is_name_segment(name)
        &&& name[0] != '_'
        &&& name != "node_modules"@
        &&& name != "favicon.ico"@
    } else {
        &&& parts.len() == 2
        &&& parts[0].len() > 1
        &&& parts[0][0] == '@'
        &&& url_safe(parts[0].skip(1))
        &&& is_name_segment(parts[1])
    }
}

/// What is wrong with the first `n` packages whose scripts are acknowledged.
pub open spec fn script_errors(allow: Seq<Seq<char>>, n: int) -> Seq<ConfigErrorModel>
    decreases n,
{
    if n <= 0 {
        Seq::empty()
    } else {
        script_errors(allow, n - 1) + (if is_package_name(allow[n - 1]) {
            Seq::empty()
        } else {
            seq![ConfigErrorModel::BadPackageName { name: allow[n - 1] }]
        })
    }
}

/// All that is wrong with a configuration, as far as it can be told without looking
/// at the file system.
pub open spec fn config_errors(c: Config) -> Seq<ConfigErrorModel> {
    let platforms = c.platforms.deep_view();
    let scopes = c.registry.scopes.deep_view();
    (if platforms.len() == 0 {
        seq![ConfigErrorModel::NoPlatforms]
    } else {
        Seq::empty()
    }) + platforms_errors(platforms, platforms.len() as int) + registry_errors(
        "default"@,
        c.registry.default@,
    ) + scope_errors(scopes, scopes.len() as int) + fixup_errors(c.fixups.registry.deep_view())
        + script_errors(
        c.scripts.allow.deep_view(),
        c.scripts.allow.deep_view().len() as int,
    ) + (
    if is_label(c.buck.node_toolchain@) {
        Seq::empty()
    } else {
        seq![ConfigErrorModel::BadToolchainLabel { label: c.buck.node_toolchain@ }]
    })
}

/// What is worth a warning in a configuration.
pub open spec fn config_warnings(c: Config) -> Seq<ConfigWarningModel> {
    let platforms = c.platforms.deep_view();
    (if platforms.len() == 1 {
        seq![ConfigWarningModel::SinglePlatform { name: platforms[0].0 }]
    } else {
        Seq::empty()
    }) + (if !(c.fixups.registry is Disabled) && c.fixups.registry_rev is None {
        seq![ConfigWarningModel::UnpinnedFixupRegistry]
    } else {
        Seq::empty()
    })
}

/// Is `s` a Buck target label?
pub fn is_buck_label(s: &str) -> (r: bool)
    ensures
        r == is_label(s@),
{
    let chars = chars_of(s);
    let n: usize = chars.len();
    let slashes = chars_of("//");
    proof {
        reveal_strlit("//");
        assert(chars@.take(n as int) =~= s@);
    }
    let k = match find(&chars, n, &slashes, 0) {
        Some(k) => k,
        None => {
            return false;
        },
    };
    let mut i: usize = 0;
    while i < n
        invariant
            chars@ == s@,
            n == chars.len(),
            i <= n,
            find_from(s@, "//"@, 0) == Some(k as int),
            forall|j: int| 0 <= j < i ==> !is_space(#[trigger] s@[j]),
        decreases n - i,
    {
        if space(chars[i]) {
            assert(is_space(s@[i as int]));
            return false;
        }
        i += 1;
    }
    let rest_text = text_of(&chars, k + 2, n);
    assert(rest_text@ =~= s@.skip(k + 2));
    let rest = chars_of(rest_text.as_str());
    let colon = find_char(&rest, ':', 0);
    if colon == rest.len() || colon + 1 == rest.len() {
        return false;
    }
    find_char(&rest, ':', colon + 1) == rest.len()
}

fn push_error(errors: &mut Vec<ConfigError>, e: ConfigError)
    ensures
        final(errors).deep_view() == old(errors).deep_view() + seq![e.deep_view()],
{
    let ghost before = errors.deep_view();
    let ghost m = e.deep_view();
    errors.push(e);
    assert(errors.deep_view() =~= before + seq![m]);
}

fn check_labels(errors: &mut Vec<ConfigError>, name: &String, labels: &Vec<String>)
    ensures
        final(errors).deep_view() == old(errors).deep_view() + label_errors(
            name@,
            labels.deep_view(),
            labels.deep_view().len() as int,
        ),
{
    let ghost before = errors.deep_view();
    let ghost ls = labels.deep_view();
    let mut i: usize = 0;
    assert(before + label_errors(name@, ls, 0) =~= before);
    while i < labels.len()
        invariant
            ls == labels.deep_view(),
            i <= ls.len(),
            errors.deep_view() == before + label_errors(name@, ls, i as int),
        decreases ls.len() - i,
    {
        assert(ls[i as int] == labels@[i as int]@);
        if !is_buck_label(labels[i].as_str()) {
            push_error(
                errors,
                ConfigError::BadConstraintLabel { platform: name.clone(), label: labels[i].clone() },
            );
        }
        i += 1;
        assert(errors.deep_view() =~= before + label_errors(name@, ls, i as int));
    }
}

fn earlier_same(platforms: &Dict<Platform>, n: usize) -> (r: Option<String>)
    requires
        n < platforms@.len(),
    ensures
        r.deep_view() == first_same(
            platforms.deep_view(),
            platforms.deep_view()[n as int].1,
            n as int,
        ),
{
    let ghost table = platforms.deep_view();
    let p = platforms.value(n);
    let ghost m = table[n as int].1;
    assert(m == p.deep_view());
    let mut i: usize = 0;
    while i < n
        invariant
            table == platforms.deep_view(),
            n < table.len(),
            m == table[n as int].1,
            m == p.deep_view(),
            i <= n,
            first_same(table, m, i as int) is None,
        decreases n - i,
    {
        let q = platforms.value(i);
        assert(table[i as int] == (platforms@[i as int].0@, q.deep_view()));
        let same_libc = match (q.libc, p.libc) {
            (Some(a), Some(b)) => a == b,
            (None, None) => true,
            _ => false,
        };
        if q.os == p.os && q.cpu == p.cpu && same_libc {
            proof {
                first_same_stays(table, m, i + 1, n as int);
            }
            return Some(platforms.key(i).clone());
        }
        i += 1;
    }
    None
}

proof fn first_same_stays(platforms: Table<PlatformModel>, p: PlatformModel, i: int, n: int)
    requires
        0 <= i <= n,
        first_same(platforms, p, i) is Some,
    ensures
        first_same(platforms, p, n) == first_same(platforms, p, i),
    decreases n - i,
{
    if i < n {
        first_same_stays(platforms, p, i, n - 1);
    }
}

fn check_platforms(errors: &mut Vec<ConfigError>, platforms: &Dict<Platform>)
    ensures
        final(errors).deep_view() == old(errors).deep_view() + platforms_errors(
            platforms.deep_view(),
            platforms.deep_view().len() as int,
        ),
{
    let ghost before = errors.deep_view();
    let ghost table = platforms.deep_view();
    let mut i: usize = 0;
    assert(before + platforms_errors(table, 0) =~= before);
    while i < platforms.len()
        invariant
            table == platforms.deep_view(),
            i <= table.len(),
            errors.deep_view() == before + platforms_errors(table, i as int),
        decreases table.len() - i,
    {
        let name = platforms.key(i);
        let p = platforms.value(i);
        assert(table[i as int] == (name@, p.deep_view()));
        let ghost prior = errors.deep_view();
        if p.os == Os::Win32 {
            push_error(errors, ConfigError::WindowsUnsupported { platform: name.clone() });
        }
        if p.libc.is_some() && p.os != Os::Linux {
            push_error(errors, ConfigError::LibcOnNonLinux { platform: name.clone() });
        }
        if let Some(labels) = &p.constraints {
            check_labels(errors, name, labels);
        }
        assert(errors.deep_view() =~= prior + platform_errors(name@, p.deep_view()));
        if let Some(first) = earlier_same(platforms, i) {
            push_error(errors, ConfigError::DuplicatePlatform { first, second: name.clone() });
        }
        i += 1;
        assert(errors.deep_view() =~= before + platforms_errors(table, i as int));
    }
}

fn check_registry(errors: &mut Vec<ConfigError>, key: &str, url: &Url)
    ensures
        final(errors).deep_view() == old(errors).deep_view() + registry_errors(key@, url@),
{
    let ghost before = errors.deep_view();
    let text = url.as_str();
    if !(starts_with(text, "http://") || starts_with(text, "https://")) {
        push_error(errors, ConfigError::BadRegistryUrl { key: key.to_owned(), url: text.to_owned() });
    }
    assert(errors.deep_view() =~= before + registry_errors(key@, url@));
}

fn check_scopes(errors: &mut Vec<ConfigError>, scopes: &Dict<Url>)
    ensures
        final(errors).deep_view() == old(errors).deep_view() + scope_errors(
            scopes.deep_view(),
            scopes.deep_view().len() as int,
        ),
{
    let ghost before = errors.deep_view();
    let ghost table = scopes.deep_view();
    let mut i: usize = 0;
    assert(before + scope_errors(table, 0) =~= before);
    while i < scopes.len()
        invariant
            table == scopes.deep_view(),
            i <= table.len(),
            errors.deep_view() == before + scope_errors(table, i as int),
        decreases table.len() - i,
    {
        let scope = scopes.key(i);
        let url = scopes.value(i);
        assert(table[i as int] == (scope@, url@));
        let chars = chars_of(scope.as_str());
        if !(chars.len() > 0 && chars[0] == '@') {
            push_error(errors, ConfigError::BadRegistryScope { scope: scope.clone() });
        }
        check_registry(errors, scope.as_str(), url);
        i += 1;
        assert(errors.deep_view() =~= before + scope_errors(table, i as int));
    }
}

fn segment_ok(s: &str) -> (r: bool)
    ensures
        r == is_name_segment(s@),
{
    let chars = chars_of(s);
    chars.len() > 0 && is_url_safe(s) && chars[0] != '.'
}

/// Is `name` an npm package name?
pub fn is_npm_name(name: &str) -> (r: bool)
    ensures
        r == is_package_name(name@),
{
    let parts = split(name, '/');
    let ghost ps = split_on(name@, '/');
    if parts.len() == 1 {
        let chars = chars_of(name);
        segment_ok(name) && chars[0] != '_' && !same(name, "node_modules") && !same(
            name,
            "favicon.ico",
        )
    } else if parts.len() == 2 {
        assert(ps[0] == parts@[0]@);
        assert(ps[1] == parts@[1]@);
        let scope = chars_of(parts[0].as_str());
        if !(scope.len() > 1 && scope[0] == '@') {
            return false;
        }
        let rest = text_of(&scope, 1, scope.len());
        assert(rest@ =~= ps[0].skip(1));
        is_url_safe(rest.as_str()) && segment_ok(parts[1].as_str())
    } else {
        false
    }
}

fn check_scripts(errors: &mut Vec<ConfigError>, allow: &NameSet)
    ensures
        final(errors).deep_view() == old(errors).deep_view() + script_errors(
            allow.deep_view(),
            allow.deep_view().len() as int,
        ),
{
    let ghost before = errors.deep_view();
    let ghost names = allow.deep_view();
    let mut i: usize = 0;
    assert(before + script_errors(names, 0) =~= before);
    while i < allow.len()
        invariant
            names == allow.deep_view(),
            i <= names.len(),
            errors.deep_view() == before + script_errors(names, i as int),
        decreases names.len() - i,
    {
        let name = allow.name(i);
        assert(names[i as int] == name@);
        if !is_npm_name(name.as_str()) {
            push_error(errors, ConfigError::BadPackageName { name: name.clone() });
        }
        i += 1;
        assert(errors.deep_view() =~= before + script_errors(names, i as int));
    }
}

impl Config {
    /// Everything that is wrong with the configuration, not just the first thing,
    /// and what is worth a warning, as far as it can be told without looking at the
    /// file system.
    pub fn validate(&self) -> (r: (Vec<ConfigError>, Vec<ConfigWarning>))
        ensures
            r.0.deep_view() == config_errors(*self),
            r.1.deep_view() == config_warnings(*self),
    {
        let mut errors: Vec<ConfigError> = Vec::new();
        assert(errors.deep_view() =~= Seq::<ConfigErrorModel>::empty());
        if self.platforms.len() == 0 {
            push_error(&mut errors, ConfigError::NoPlatforms);
        }
        check_platforms(&mut errors, &self.platforms);
        check_registry(&mut errors, "default", &self.registry.default);
        check_scopes(&mut errors, &self.registry.scopes);
        if let FixupRegistry::File(path) = &self.fixups.registry {
            let chars = chars_of(path.as_str());
            if !(chars.len() > 0 && chars[0] == '/') {
                let mut value = "file://".to_owned();
                value.append(path.as_str());
                push_error(&mut errors, ConfigError::BadFixupRegistryPath { value });
            }
        }
        check_scripts(&mut errors, &self.scripts.allow);
        if !is_buck_label(self.buck.node_toolchain.as_str()) {
            push_error(
                &mut errors,
                ConfigError::BadToolchainLabel { label: self.buck.node_toolchain.clone() },
            );
        }
        assert(errors.deep_view() =~= config_errors(*self));
        let mut warnings: Vec<ConfigWarning> = Vec::new();
        let ghost table = self.platforms.deep_view();
        if self.platforms.len() == 1 {
            warnings.push(ConfigWarning::SinglePlatform { name: self.platforms.key(0).clone() });
            assert(table[0].0 == self.platforms@[0].0@);
        }
        let pinned = match &self.fixups.registry {
            FixupRegistry::Disabled => true,
            _ => self.fixups.registry_rev.is_some(),
        };
        if !pinned {
            warnings.push(ConfigWarning::UnpinnedFixupRegistry);
        }
        assert(warnings.deep_view() =~= config_warnings(*self));
        (errors, warnings)
    }
}

// --- Laws -----------------------------------------------------------------------------

/// A label is a cell, a path and a target: two slashes end the cell at their first
/// place, one colon stands behind them, something stands behind the colon, and no white
/// space stands anywhere.
pub proof fn labels_name_a_target(s: Seq<char>)
    ensures
        is_label(s) <==> exists|k: int, c: int|
            {
                &&& 0 <= k && k + 2 <= c < s.len() - 1
                &&& s[k] == '/' && s[k + 1] == '/'
                &&& forall|j: int| 0 <= j < k ==> !(#[trigger] s[j] == '/' && s[j + 1] == '/')
                &&& #[trigger] is_sole_colon(s, k + 2, c)
                &&& no_space(s)
            },
{
    reveal_strlit("//");
    let p = "//"@;
    assert forall|j: int| #[trigger] occurs_at(s, p, j) <==> 0 <= j && j + 2 <= s.len() && s[j] == '/'
        && s[j + 1] == '/' by {
        if 0 <= j && j + 2 <= s.len() {
            let here = s.subrange(j, j + 2);
            assert(here[0] == s[j] && here[1] == s[j + 1]);
            if s[j] == '/' && s[j + 1] == '/' {
                assert(here =~= p);
            }
        }
    }
    find_is_first(s, p);
    if is_label(s) {
        let k = find_from(s, p, 0)->Some_0;
        let rest = s.skip(k + 2);
        let colon = index_from(rest, ':', 0);
        let c = k + 2 + colon;
        index_from_finds(rest, ':', 0);
        index_from_first(rest, ':', 0);
        index_from_first(rest, ':', colon + 1);
        assert forall|j: int| k + 2 <= j < s.len() implies (#[trigger] s[j] == ':' <==> j == c) by {
            assert(rest[j - k - 2] == s[j]);
        }
        assert(occurs_at(s, p, k));
        assert forall|j: int| 0 <= j < k implies !(#[trigger] s[j] == '/' && s[j + 1] == '/') by {
            assert(!occurs_at(s, p, j));
        }
        assert(is_sole_colon(s, k + 2, c));
    }
    if exists|k: int, c: int|
        {
            &&& 0 <= k && k + 2 <= c < s.len() - 1
            &&& s[k] == '/' && s[k + 1] == '/'
            &&& forall|j: int| 0 <= j < k ==> !(#[trigger] s[j] == '/' && s[j + 1] == '/')
            &&& #[trigger] is_sole_colon(s, k + 2, c)
            &&& no_space(s)
        } {
        let (k, c) = choose|k: int, c: int|
            {
                &&& 0 <= k && k + 2 <= c < s.len() - 1
                &&& s[k] == '/' && s[k + 1] == '/'
                &&& forall|j: int| 0 <= j < k ==> !(#[trigger] s[j] == '/' && s[j + 1] == '/')
                &&& #[trigger] is_sole_colon(s, k + 2, c)
                &&& no_space(s)
            };
        assert(occurs_at(s, p, k));
        let first = find_from(s, p, 0)->Some_0;
        assert(occurs_at(s, p, first));
        if first < k {
            assert(s[first] == '/' && s[first + 1] == '/');
        }
        assert(first == k);
        let rest = s.skip(k + 2);
        assert(forall|j: int| 0 <= j < rest.len() ==> #[trigger] rest[j] == s[k + 2 + j]);
        index_from_is(rest, ':', 0, c - k - 2);
        index_from_is(rest, ':', c - k - 1, rest.len() as int);
    }
}

/// Of the places of `s` from `from` on, a colon stands at `c` alone.
pub open spec fn is_sole_colon(s: Seq<char>, from: int, c: int) -> bool {
    forall|j: int| from <= j < s.len() ==> (#[trigger] s[j] == ':' <==> j == c)
}

/// A value names a registry of fixups in one of three forms, and the form says what it
/// names: nothing, a path, or a repository and its owner.
pub proof fn fixup_registries_read_back(
    value: Seq<char>,
    path: Seq<char>,
    owner: Seq<char>,
    repo: Seq<char>,
)
    ensures
        fixup_registry_of(value) == Some(FixupRegistryModel::Disabled) <==> value == "none"@,
        fixup_registry_of(value) == Some(FixupRegistryModel::File(path)) <==> value == "file://"@
            + path,
        fixup_registry_of(value) == Some(FixupRegistryModel::Github { owner, repo }) <==> value
            == "github.com/"@ + owner + seq!['/'] + repo && owner.len() > 0 && repo.len() > 0
            && !owner.contains('/') && !repo.contains('/'),
{
    reveal_strlit("none");
    reveal_strlit("file://");
    reveal_strlit("github.com/");
    let file = "file://"@;
    let github = "github.com/"@;
    if file.is_prefix_of(value) {
        assert(value.take(7) =~= file);
        assert(value =~= file + value.skip(7));
        assert(value[0] == file[0] && file[0] == 'f');
    }
    if github.is_prefix_of(value) {
        assert(value =~= github + value.skip(11));
        assert(value[0] == github[0] && github[0] == 'g');
        let rest = value.skip(11);
        let parts = split_on(rest, '/');
        if parts.len() == 2 {
            join_split(rest, '/');
            pieces_hold_no_separator(rest, '/', 0);
            pieces_hold_no_separator(rest, '/', 1);
            reveal_with_fuel(join_with, 3);
            assert(join_with(parts, seq!['/']) =~= parts[0] + seq!['/'] + parts[1]);
            assert(value =~= github + parts[0] + seq!['/'] + parts[1]);
        }
    }
    if value == "none"@ {
        assert(value[0] == 'n');
    }
    let f = file + path;
    assert(f.skip(7) =~= path);
    assert(f[0] == 'f');
    assert(file =~= f.take(7));
    let g = github + owner + seq!['/'] + repo;
    assert(g.skip(11) =~= owner + seq!['/'] + repo);
    assert(g[0] == 'g');
    assert(github =~= g.take(11));
    if !owner.contains('/') && !repo.contains('/') {
        split_joined(owner, repo, '/');
        split_plain(owner, '/');
        split_plain(repo, '/');
    }
}

/// A package name without a scope is a text that needs no escapes in a URL, begins with
/// neither a dot nor an underscore, and is not reserved. A name below a scope is a scope
/// and a text that need no escapes, neither empty, the text without a dot in front. No
/// other text with a slash is a name.
pub proof fn package_names_fit_a_url(name: Seq<char>, scope: Seq<char>, base: Seq<char>)
    requires
        !name.contains('/'),
        !scope.contains('/'),
    ensures
        is_package_name(name) <==> {
            &&& name.len() > 0
            &&& fits_a_url(name)
            &&& name[0] != '.'
            &&& name[0] != '_'
            &&& name != "node_modules"@
            &&& name != "favicon.ico"@
        },
        is_package_name(scope + seq!['/'] + base) <==> {
            &&& scope.len() > 1
            &&& scope[0] == '@'
            &&& fits_a_url(scope.skip(1))
            &&& base.len() > 0
            &&& fits_a_url(base)
            &&& base[0] != '.'
        },
{
    split_plain(name, '/');
    fits_is_safe(name);
    let full = scope + seq!['/'] + base;
    split_plain(scope, '/');
    split_joined(scope, base, '/');
    split_not_empty(base, '/');
    fits_is_safe(scope.skip(1));
    fits_is_safe(base);
    if base.contains('/') {
        let i = base.index_of('/');
        assert(base[i] == '/');
        let marks = seq!['-', '_', '.', '!', '~', '*', '\'', '(', ')'];
        assert(!marks.contains('/'));
        assert(!fits_a_url(base));
        if split_on(base, '/').len() == 1 {
            join_split(base, '/');
            pieces_hold_no_separator(base, '/', 0);
            reveal_with_fuel(join_with, 2);
            assert(join_with(split_on(base, '/'), seq!['/']) =~= split_on(base, '/')[0]);
        }
    } else {
        split_plain(base, '/');
    }
}

/// Something is wrong with a configuration, of the kind that an error tells of.
pub open spec fn has_fault(c: Config, e: ConfigErrorModel) -> bool {
    let platforms = c.platforms.deep_view();
    let scopes = c.registry.scopes.deep_view();
    match e {
        ConfigErrorModel::NoPlatforms => platforms.len() == 0,
        ConfigErrorModel::WindowsUnsupported { platform } => exists|i: int|
            0 <= i < platforms.len() && (#[trigger] platforms[i]).0 == platform
                && platforms[i].1.os is Win32,
        ConfigErrorModel::LibcOnNonLinux { platform } => exists|i: int|
            0 <= i < platforms.len() && (#[trigger] platforms[i]).0 == platform
                && platforms[i].1.libc is Some && !(platforms[i].1.os is Linux),
        ConfigErrorModel::BadConstraintLabel { platform, label } => exists|i: int|
            0 <= i < platforms.len() && (#[trigger] platforms[i]).0 == platform
                && platforms[i].1.constraints is Some
                && platforms[i].1.constraints->Some_0.contains(label) && !is_label(label),
        ConfigErrorModel::DuplicatePlatform { first, second } => exists|i: int, j: int|
            0 <= i < j < platforms.len() && (#[trigger] platforms[i]).0 == first && (
            #[trigger] platforms[j]).0 == second && platforms[i].1.os == platforms[j].1.os
                && platforms[i].1.cpu == platforms[j].1.cpu && platforms[i].1.libc
                == platforms[j].1.libc && forall|k: int|
                0 <= k < i ==> !same_machine((#[trigger] platforms[k]).1, platforms[j].1),
        ConfigErrorModel::BadRegistryUrl { key, url } => {
            &&& !("http://"@.is_prefix_of(url) || "https://"@.is_prefix_of(url))
            &&& {
                ||| key == "default"@ && url == c.registry.default@
                ||| scopes.contains((key, url))
            }
        },
        ConfigErrorModel::BadRegistryScope { scope } => exists|i: int|
            0 <= i < scopes.len() && (#[trigger] scopes[i]).0 == scope && (scope.len() == 0
                || scope[0] != '@'),
        ConfigErrorModel::BadFixupRegistryPath { value } => {
            let registry = c.fixups.registry.deep_view();
            &&& registry is File
            &&& value == "file://"@ + registry->File_0
            &&& registry->File_0.len() == 0 || registry->File_0[0] != '/'
        },
        ConfigErrorModel::BadPackageName { name } => c.scripts.allow.deep_view().contains(name)
            && !is_package_name(name),
        ConfigErrorModel::BadToolchainLabel { label } => label == c.buck.node_toolchain@
            && !is_label(label),
        _ => false,
    }
}

proof fn label_errors_are(name: Seq<char>, labels: Seq<Seq<char>>, n: int, e: ConfigErrorModel)
    requires
        0 <= n <= labels.len(),
    ensures
        label_errors(name, labels, n).contains(e) <==> e is BadConstraintLabel
            && e->BadConstraintLabel_platform == name && !is_label(e->BadConstraintLabel_label)
            && labels.take(n).contains(e->BadConstraintLabel_label),
    decreases n,
{
    broadcast use vstd::seq_lib::lemma_seq_contains_after_push;

    if n > 0 {
        label_errors_are(name, labels, n - 1, e);
        assert(labels.take(n) =~= labels.take(n - 1).push(labels[n - 1]));
    }
}

proof fn platform_errors_are(name: Seq<char>, p: PlatformModel, e: ConfigErrorModel)
    ensures
        platform_errors(name, p).contains(e) <==> match e {
            ConfigErrorModel::WindowsUnsupported { platform } => platform == name && p.os is Win32,
            ConfigErrorModel::LibcOnNonLinux { platform } => platform == name && p.libc is Some
                && !(p.os is Linux),
            ConfigErrorModel::BadConstraintLabel { platform, label } => platform == name
                && p.constraints is Some && p.constraints->Some_0.contains(label) && !is_label(
                label,
            ),
            _ => false,
        },
{
    broadcast use vstd::seq_lib::lemma_seq_concat_contains_all_elements;

    let a = if p.os is Win32 {
        seq![ConfigErrorModel::WindowsUnsupported { platform: name }]
    } else {
        Seq::empty()
    };
    let b = if p.libc is Some && !(p.os is Linux) {
        seq![ConfigErrorModel::LibcOnNonLinux { platform: name }]
    } else {
        Seq::empty()
    };
    let c = match p.constraints {
        Some(labels) => label_errors(name, labels, labels.len() as int),
        None => Seq::empty(),
    };
    assert(platform_errors(name, p) == a + b + c);
    if p.os is Win32 {
        assert(a[0] == ConfigErrorModel::WindowsUnsupported { platform: name });
    }
    if p.libc is Some && !(p.os is Linux) {
        assert(b[0] == ConfigErrorModel::LibcOnNonLinux { platform: name });
    }
    if let Some(labels) = p.constraints {
        label_errors_are(name, labels, labels.len() as int, e);
        assert(labels.take(labels.len() as int) =~= labels);
    }
}

proof fn first_same_is(platforms: Table<PlatformModel>, p: PlatformModel, n: int)
    requires
        0 <= n <= platforms.len(),
    ensures
        match first_same(platforms, p, n) {
            Some(name) => exists|i: int|
                0 <= i < n && (#[trigger] platforms[i]).0 == name && same_machine(
                    platforms[i].1,
                    p,
                ) && forall|k: int| 0 <= k < i ==> !same_machine((#[trigger] platforms[k]).1, p),
            None => forall|k: int| 0 <= k < n ==> !same_machine((#[trigger] platforms[k]).1, p),
        },
    decreases n,
{
    if n > 0 {
        first_same_is(platforms, p, n - 1);
        if first_same(platforms, p, n - 1) is Some {
            let name = first_same(platforms, p, n - 1)->Some_0;
            let i = choose|i: int|
                0 <= i < n - 1 && (#[trigger] platforms[i]).0 == name && same_machine(
                    platforms[i].1,
                    p,
                ) && forall|k: int| 0 <= k < i ==> !same_machine((#[trigger] platforms[k]).1, p);
            assert(platforms[i].0 == name);
        } else if same_machine(platforms[n - 1].1, p) {
            assert(platforms[n - 1].0 == platforms[n - 1].0);
        }
    }
}

/// What is wrong with the first `n` platforms, in the words of [`has_fault`].
spec fn platform_has_fault(platforms: Table<PlatformModel>, n: int, e: ConfigErrorModel) -> bool {
    match e {
        ConfigErrorModel::WindowsUnsupported { platform } => exists|i: int|
            0 <= i < n && (#[trigger] platforms[i]).0 == platform && platforms[i].1.os is Win32,
        ConfigErrorModel::LibcOnNonLinux { platform } => exists|i: int|
            0 <= i < n && (#[trigger] platforms[i]).0 == platform && platforms[i].1.libc is Some
                && !(platforms[i].1.os is Linux),
        ConfigErrorModel::BadConstraintLabel { platform, label } => exists|i: int|
            0 <= i < n && (#[trigger] platforms[i]).0 == platform
                && platforms[i].1.constraints is Some
                && platforms[i].1.constraints->Some_0.contains(label) && !is_label(label),
        ConfigErrorModel::DuplicatePlatform { first, second } => exists|i: int, j: int|
            0 <= i < j < n && (#[trigger] platforms[i]).0 == first && (
            #[trigger] platforms[j]).0 == second && platforms[i].1.os == platforms[j].1.os
                && platforms[i].1.cpu == platforms[j].1.cpu && platforms[i].1.libc
                == platforms[j].1.libc && forall|k: int|
                0 <= k < i ==> !same_machine((#[trigger] platforms[k]).1, platforms[j].1),
        _ => false,
    }
}

proof fn platforms_errors_are(platforms: Table<PlatformModel>, n: int, e: ConfigErrorModel)
    requires
        0 <= n <= platforms.len(),
    ensures
        platforms_errors(platforms, n).contains(e) <==> platform_has_fault(platforms, n, e),
    decreases n,
{
    broadcast use vstd::seq_lib::lemma_seq_concat_contains_all_elements;

    if n > 0 {
        let (name, p) = platforms[n - 1];
        platforms_errors_are(platforms, n - 1, e);
        platform_errors_are(name, p, e);
        first_same_is(platforms, p, n - 1);
        let twice = match first_same(platforms, p, n - 1) {
            Some(first) => seq![ConfigErrorModel::DuplicatePlatform { first, second: name }],
            None => Seq::empty(),
        };
        if twice.len() > 0 {
            assert(twice.contains(twice[0]));
        }
        assert(platforms_errors(platforms, n) == platforms_errors(platforms, n - 1)
            + platform_errors(name, p) + twice);
        match e {
            ConfigErrorModel::DuplicatePlatform { first, second } => {
                if platform_has_fault(platforms, n, e) && !platform_has_fault(platforms, n - 1, e) {
                    let (i, j) = choose|i: int, j: int|
                        0 <= i < j < n && (#[trigger] platforms[i]).0 == first && (
                        #[trigger] platforms[j]).0 == second && platforms[i].1.os
                            == platforms[j].1.os && platforms[i].1.cpu == platforms[j].1.cpu
                            && platforms[i].1.libc == platforms[j].1.libc && forall|k: int|
                            0 <= k < i ==> !same_machine((#[trigger] platforms[k]).1, platforms[j].1);
                    assert(j == n - 1);
                    assert(same_machine(platforms[i].1, p));
                    let name1 = first_same(platforms, p, n - 1)->Some_0;
                    let i1 = choose|i: int|
                        0 <= i < n - 1 && (#[trigger] platforms[i]).0 == name1 && same_machine(
                            platforms[i].1,
                            p,
                        ) && forall|k: int|
                            0 <= k < i ==> !same_machine((#[trigger] platforms[k]).1, p);
                    assert(i1 == i);
                }
                if twice.contains(e) {
                    let i1 = choose|i: int|
                        0 <= i < n - 1 && (#[trigger] platforms[i]).0 == first && same_machine(
                            platforms[i].1,
                            p,
                        ) && forall|k: int|
                            0 <= k < i ==> !same_machine((#[trigger] platforms[k]).1, p);
                    assert(platforms[i1].0 == first && platforms[n - 1].0 == second);
                }
            },
            _ => {
                assert(platforms[n - 1].0 == name);
            },
        }
    }
}

proof fn scope_errors_are(scopes: Table<Seq<char>>, n: int, e: ConfigErrorModel)
    requires
        0 <= n <= scopes.len(),
    ensures
        scope_errors(scopes, n).contains(e) <==> match e {
            ConfigErrorModel::BadRegistryUrl { key, url } => !is_http(url) && scopes.take(
                n,
            ).contains((key, url)),
            ConfigErrorModel::BadRegistryScope { scope } => exists|i: int|
                0 <= i < n && (#[trigger] scopes[i]).0 == scope && (scope.len() == 0 || scope[0]
                    != '@'),
            _ => false,
        },
    decreases n,
{
    broadcast use vstd::seq_lib::lemma_seq_concat_contains_all_elements;
    broadcast use vstd::seq_lib::lemma_seq_contains_after_push;

    if n > 0 {
        let (scope, url) = scopes[n - 1];
        scope_errors_are(scopes, n - 1, e);
        assert(scopes.take(n) =~= scopes.take(n - 1).push(scopes[n - 1]));
        let a = if scope.len() > 0 && scope[0] == '@' {
            Seq::empty()
        } else {
            seq![ConfigErrorModel::BadRegistryScope { scope }]
        };
        let b = registry_errors(scope, url);
        if a.len() > 0 {
            assert(a.contains(a[0]));
        }
        if b.len() > 0 {
            assert(b.contains(b[0]));
        }
        assert(scope_errors(scopes, n) == scope_errors(scopes, n - 1) + a + b);
        if e is BadRegistryScope && a.contains(e) {
            assert(scopes[n - 1].0 == e->scope);
        }
    }
}

proof fn script_errors_are(allow: Seq<Seq<char>>, n: int, e: ConfigErrorModel)
    requires
        0 <= n <= allow.len(),
    ensures
        script_errors(allow, n).contains(e) <==> e is BadPackageName && !is_package_name(
            e->BadPackageName_name,
        ) && allow.take(n).contains(e->BadPackageName_name),
    decreases n,
{
    broadcast use vstd::seq_lib::lemma_seq_concat_contains_all_elements;
    broadcast use vstd::seq_lib::lemma_seq_contains_after_push;

    if n > 0 {
        script_errors_are(allow, n - 1, e);
        assert(allow.take(n) =~= allow.take(n - 1).push(allow[n - 1]));
        let a = if is_package_name(allow[n - 1]) {
            Seq::empty()
        } else {
            seq![ConfigErrorModel::BadPackageName { name: allow[n - 1] }]
        };
        if a.len() > 0 {
            assert(a.contains(a[0]));
        }
        assert(script_errors(allow, n) == script_errors(allow, n - 1) + a);
    }
}

/// The check tells of every fault, not just the first, and of nothing else.
pub proof fn every_fault_is_told(c: Config, e: ConfigErrorModel)
    ensures
        config_errors(c).contains(e) <==> has_fault(c, e),
{
    broadcast use vstd::seq_lib::lemma_seq_concat_contains_all_elements;

    let platforms = c.platforms.deep_view();
    let scopes = c.registry.scopes.deep_view();
    let allow = c.scripts.allow.deep_view();
    platforms_errors_are(platforms, platforms.len() as int, e);
    scope_errors_are(scopes, scopes.len() as int, e);
    script_errors_are(allow, allow.len() as int, e);
    assert(scopes.take(scopes.len() as int) =~= scopes);
    assert(allow.take(allow.len() as int) =~= allow);
    let a = if platforms.len() == 0 {
        seq![ConfigErrorModel::NoPlatforms]
    } else {
        Seq::empty()
    };
    let b = platforms_errors(platforms, platforms.len() as int);
    let d = registry_errors("default"@, c.registry.default@);
    let s = scope_errors(scopes, scopes.len() as int);
    let f = fixup_errors(c.fixups.registry.deep_view());
    let w = script_errors(allow, allow.len() as int);
    let t = if is_label(c.buck.node_toolchain@) {
        Seq::empty()
    } else {
        seq![ConfigErrorModel::BadToolchainLabel { label: c.buck.node_toolchain@ }]
    };
    assert(config_errors(c) == a + b + d + s + f + w + t);
    if a.len() > 0 {
        assert(a.contains(a[0]));
    }
    if d.len() > 0 {
        assert(d.contains(d[0]));
    }
    if f.len() > 0 {
        assert(f.contains(f[0]));
    }
    if t.len() > 0 {
        assert(t.contains(t[0]));
    }
}

/// A configuration is warned about exactly where it has one platform only, and where its
/// fixups come from somewhere that no revision pins.
pub proof fn warnings_have_their_reasons(c: Config, w: ConfigWarningModel)
    ensures
        config_warnings(c).contains(w) <==> match w {
            ConfigWarningModel::SinglePlatform { name } => c.platforms.deep_view().len() == 1
                && c.platforms.deep_view()[0].0 == name,
            ConfigWarningModel::UnpinnedFixupRegistry => c.fixups.registry.deep_view()
                != FixupRegistryModel::Disabled && c.fixups.registry_rev is None,
        },
{
    broadcast use vstd::seq_lib::lemma_seq_concat_contains_all_elements;

    let platforms = c.platforms.deep_view();
    let a = if platforms.len() == 1 {
        seq![ConfigWarningModel::SinglePlatform { name: platforms[0].0 }]
    } else {
        Seq::empty()
    };
    let b = if !(c.fixups.registry is Disabled) && c.fixups.registry_rev is None {
        seq![ConfigWarningModel::UnpinnedFixupRegistry]
    } else {
        Seq::empty()
    };
    assert(config_warnings(c) == a + b);
    if a.len() > 0 {
        assert(a.contains(a[0]));
    }
    if b.len() > 0 {
        assert(b.contains(b[0]));
    }
}

} // verus!
