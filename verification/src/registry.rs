//! Tarball URL derivation.
//!
//! `<registry>/<name>/-/<basename>-<version>.tgz`, where `basename` is the
//! package name after its scope.

use vstd::prelude::*;

use crate::config::{url_text, RegistryConfig, RegistryModel, Url};
use crate::dict::lookup;
use crate::error::{VendorError, VendorErrorModel};
use crate::text::{
    chars_of, find_char, index_from, index_from_is, split, split_joined, split_on, split_plain,
    text_of, trim_end, trimmed_of,
};

verus! {

/// `@babel/core` is in `@babel`; `left-pad` is in no scope.
pub open spec fn scope_text(name: Seq<char>) -> Option<Seq<char>> {
    if name.len() > 0 && name[0] == '@' && index_from(name, '/', 1) < name.len() {
        Some(name.take(index_from(name, '/', 1)))
    } else {
        None
    }
}

/// The registry that serves a package: that of its very scope where one is
/// configured, else the default.
pub open spec fn registry_text(name: Seq<char>, cfg: RegistryModel) -> Seq<char> {
    match scope_text(name) {
        Some(scope) => match lookup(cfg.scopes, scope) {
            Some(url) => url,
            None => cfg.default,
        },
        None => cfg.default,
    }
}

/// A package's name without its scope.
pub open spec fn base_name(name: Seq<char>) -> Seq<char> {
    split_on(name, '/').last()
}

/// The address of a package's tarball, as it is put together.
pub open spec fn raw_tarball_url(name: Seq<char>, version: Seq<char>, cfg: RegistryModel) -> Seq<
    char,
> {
    trimmed_of(registry_text(name, cfg), '/') + "/"@ + name + "/-/"@ + base_name(name) + "-"@
        + version + ".tgz"@
}

/// The address of a package's tarball, or why it has none.
pub open spec fn tarball_result(name: Seq<char>, version: Seq<char>, cfg: RegistryModel) -> Result<
    Seq<char>,
    VendorErrorModel,
> {
    match url_text(raw_tarball_url(name, version, cfg)) {
        Some(url) => Ok(url),
        None => Err(
            VendorErrorModel::BadDerivedUrl {
                key: name + "@"@ + version,
                name,
                url: raw_tarball_url(name, version, cfg),
            },
        ),
    }
}

fn scope_of(name: &str) -> (r: Option<String>)
    ensures
        match r {
            Some(s) => scope_text(name@) == Some(s@),
            None => scope_text(name@) is None,
        },
{
    let chars = chars_of(name);
    if chars.len() == 0 || chars[0] != '@' {
        return None;
    }
    let slash = find_char(&chars, '/', 1);
    if slash == chars.len() {
        return None;
    }
    let r = text_of(&chars, 0, slash);
    assert(r@ =~= name@.take(slash as int));
    Some(r)
}

/// The registry serving `name`: an exact `@scope` override when one is
/// configured, else the default.
///
/// npm has no nested scopes, so `@myorgtools` does not pick up an `@myorg`
/// override.
pub fn registry_for<'a>(name: &str, cfg: &'a RegistryConfig) -> (r: &'a Url)
    ensures
        r@ == registry_text(name@, cfg.deep_view()),
{
    if let Some(scope) = scope_of(name) {
        if let Some(url) = cfg.scopes.get(scope.as_str()) {
            return url;
        }
    }
    &cfg.default
}

/// Puts the address of a tarball together.
///
/// By hand rather than by joining URLs, which would discard the last path segment
/// of a registry served under a prefix like `/artifactory/api/npm/repo`.
pub fn raw_url(name: &str, version: &str, cfg: &RegistryConfig) -> (r: String)
    ensures
        r@ == raw_tarball_url(name@, version@, cfg.deep_view()),
{
    let base = registry_for(name, cfg);
    let parts = split(name, '/');
    let ghost ps = split_on(name@, '/');
    let basename = &parts[parts.len() - 1];
    assert(ps.last() == basename@);
    let mut raw = trim_end(base.as_str(), '/');
    raw.append("/");
    raw.append(name);
    raw.append("/-/");
    raw.append(basename.as_str());
    raw.append("-");
    raw.append(version);
    raw.append(".tgz");
    raw
}

/// The tarball URL for `name@version`.
pub fn tarball_url(name: &str, version: &str, cfg: &RegistryConfig) -> (r: Result<Url, VendorError>)
    ensures
        match (tarball_result(name@, version@, cfg.deep_view()), r) {
            (Ok(m), Ok(u)) => u@ == m,
            (Err(m), Err(e)) => e.deep_view() == m,
            _ => false,
        },
{
    let raw = raw_url(name, version, cfg);
    match Url::parse(raw.as_str()) {
        Some(u) => Ok(u),
        None => {
            let mut key = name.to_owned();
            key.append("@");
            key.append(version);
            Err(VendorError::BadDerivedUrl { key, name: name.to_owned(), url: raw })
        },
    }
}

/// A scope's registry serves the packages of that scope and no others: a package
/// whose scope is not configured is served by the default.
pub proof fn scopes_match_exactly(name: Seq<char>, cfg: RegistryModel)
    requires
        forall|scope: Seq<char>|
            #[trigger] crate::dict::has_key(cfg.scopes, scope) ==> scope_text(name) != Some(scope),
    ensures
        registry_text(name, cfg) == cfg.default,
{
    if scope_text(name) is Some && lookup(cfg.scopes, scope_text(name)->Some_0) is Some {
        assert(crate::dict::has_key(cfg.scopes, scope_text(name)->Some_0));
    }
}

/// A package in a scope is served by the registry that is configured for the scope, spelled
/// exactly so, and where none is, by the default; a package in no scope is served by the
/// default. The scope is what stands before the first `/` of a name that starts with `@`.
pub proof fn a_scope_picks_its_registry(scope: Seq<char>, rest: Seq<char>, cfg: RegistryModel)
    requires
        !scope.contains('/'),
    ensures
        scope.len() > 0 && scope[0] == '@' && lookup(cfg.scopes, scope) is Some ==> registry_text(
            scope + seq!['/'] + rest,
            cfg,
        ) == lookup(cfg.scopes, scope)->Some_0,
        scope.len() > 0 && scope[0] == '@' && lookup(cfg.scopes, scope) is None ==> registry_text(
            scope + seq!['/'] + rest,
            cfg,
        ) == cfg.default,
        scope.len() > 0 && scope[0] != '@' ==> registry_text(scope + seq!['/'] + rest, cfg)
            == cfg.default,
        registry_text(scope, cfg) == cfg.default,
{
    let name = scope + seq!['/'] + rest;
    if scope.len() > 0 {
        assert(name[0] == scope[0]);
        assert(name[scope.len() as int] == '/');
        assert forall|i: int| 0 <= i < scope.len() implies name[i] != '/' by {
            assert(scope.contains(scope[i]));
        }
        index_from_is(name, '/', 1, scope.len() as int);
        assert(name.take(scope.len() as int) =~= scope);
        index_from_is(scope, '/', 1, scope.len() as int);
    }
}

/// The address of a tarball is the registry without trailing slashes, then the whole name,
/// `/-/`, the name without its scope, `-`, the version and `.tgz`.
pub proof fn an_address_names_the_package(
    scope: Seq<char>,
    base: Seq<char>,
    version: Seq<char>,
    cfg: RegistryModel,
)
    requires
        !base.contains('/'),
    ensures
        ({
            let name = scope + seq!['/'] + base;
            let site = trimmed_of(registry_text(name, cfg), '/');
            raw_tarball_url(name, version, cfg) == site + "/"@ + scope + "/"@ + base + "/-/"@ + base
                + "-"@ + version + ".tgz"@
        }),
        ({
            let site = trimmed_of(registry_text(base, cfg), '/');
            raw_tarball_url(base, version, cfg) == site + "/"@ + base + "/-/"@ + base + "-"@
                + version + ".tgz"@
        }),
{
    let name = scope + seq!['/'] + base;
    reveal_strlit("/");
    assert("/"@ =~= seq!['/']);
    split_plain(base, '/');
    split_joined(scope, base, '/');
    assert(base_name(name) == base);
    assert(base_name(base) == base);
    let site = trimmed_of(registry_text(name, cfg), '/');
    assert(site + "/"@ + name + "/-/"@ + base + "-"@ + version + ".tgz"@ =~= site + "/"@ + scope
        + "/"@ + base + "/-/"@ + base + "-"@ + version + ".tgz"@);
}

} // verus!
