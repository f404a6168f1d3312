//! Error and warning types: what each says, and the exit code each maps to.

use vstd::prelude::*;

use crate::text::{
    decimal, decimal_text, flag, flag_text, join, join_first, join_with, joined_pieces_stand,
    stands_between, stands_in, stands_inside,
};

verus! {

/// Lockfile parse and graph-construction failures.
#[derive(Debug, PartialEq)]
pub enum LockError {
    UnsupportedVersion { found: Option<String> },
    Yaml { path: String, source: String },
    KeyParse { key: String, offset: usize, reason: String },
    MissingPackageMeta { snapshot: String, base: String },
    UnresolvedEdge { from: String, link_name: String, resolved: String },
    TargetNameCollision { a: String, b: String, target: String },
    DuplicateLinkName { snapshot: String, link_name: String },
    PatchedDependencies,
    ExcludedLinks,
}

/// The mathematical value of a [`LockError`].
pub enum LockErrorModel {
    UnsupportedVersion { found: Option<Seq<char>> },
    Yaml { path: Seq<char>, source: Seq<char> },
    KeyParse { key: Seq<char>, offset: int, reason: Seq<char> },
    MissingPackageMeta { snapshot: Seq<char>, base: Seq<char> },
    UnresolvedEdge { from: Seq<char>, link_name: Seq<char>, resolved: Seq<char> },
    TargetNameCollision { a: Seq<char>, b: Seq<char>, target: Seq<char> },
    DuplicateLinkName { snapshot: Seq<char>, link_name: Seq<char> },
    PatchedDependencies,
    ExcludedLinks,
}

impl DeepView for LockError {
    type V = LockErrorModel;

    open spec fn deep_view(&self) -> LockErrorModel {
        match self {
            LockError::UnsupportedVersion { found } => LockErrorModel::UnsupportedVersion {
                found: found.deep_view(),
            },
            LockError::Yaml { path, source } => LockErrorModel::Yaml {
                path: path@,
                source: source@,
            },
            LockError::KeyParse { key, offset, reason } => LockErrorModel::KeyParse {
                key: key@,
                offset: *offset as int,
                reason: reason@,
            },
            LockError::MissingPackageMeta { snapshot, base } => LockErrorModel::MissingPackageMeta {
                snapshot: snapshot@,
                base: base@,
            },
            LockError::UnresolvedEdge { from, link_name, resolved } => LockErrorModel::UnresolvedEdge {
                from: from@,
                link_name: link_name@,
                resolved: resolved@,
            },
            LockError::TargetNameCollision { a, b, target } => LockErrorModel::TargetNameCollision {
                a: a@,
                b: b@,
                target: target@,
            },
            LockError::DuplicateLinkName { snapshot, link_name } => LockErrorModel::DuplicateLinkName {
                snapshot: snapshot@,
                link_name: link_name@,
            },
            LockError::PatchedDependencies => LockErrorModel::PatchedDependencies,
            LockError::ExcludedLinks => LockErrorModel::ExcludedLinks,
        }
    }
}

/// Non-fatal findings from per-platform pruning.
#[derive(Debug, PartialEq)]
pub enum PlatformWarning {
    RequiredDependencyExcluded { dependent: String, target: String, platform: String },
    ExcludedEverywhere { packages: Vec<String>, platforms: Vec<String> },
}

/// The mathematical value of a [`PlatformWarning`].
pub enum PlatformWarningModel {
    RequiredDependencyExcluded { dependent: Seq<char>, target: Seq<char>, platform: Seq<char> },
    ExcludedEverywhere { packages: Seq<Seq<char>>, platforms: Seq<Seq<char>> },
}

impl DeepView for PlatformWarning {
    type V = PlatformWarningModel;

    open spec fn deep_view(&self) -> PlatformWarningModel {
        match self {
            PlatformWarning::RequiredDependencyExcluded { dependent, target, platform } => {
                PlatformWarningModel::RequiredDependencyExcluded {
                    dependent: dependent@,
                    target: target@,
                    platform: platform@,
                }
            },
            PlatformWarning::ExcludedEverywhere { packages, platforms } => {
                PlatformWarningModel::ExcludedEverywhere {
                    packages: packages.deep_view(),
                    platforms: platforms.deep_view(),
                }
            },
        }
    }
}

/// Failures of rendering the Buck files.
#[derive(Debug, PartialEq)]
pub enum BuckError {
    UnrepresentableBinName { package: String, name: String },
    ImporterNameCollision { target: String, first: String, second: String },
    UnusableThirdPartyDir { path: String },
    /// What is on disk is not what would be rendered.
    Stale { files: Vec<String> },
}

/// The mathematical value of a [`BuckError`].
pub enum BuckErrorModel {
    UnrepresentableBinName { package: Seq<char>, name: Seq<char> },
    ImporterNameCollision { target: Seq<char>, first: Seq<char>, second: Seq<char> },
    UnusableThirdPartyDir { path: Seq<char> },
    Stale { files: Seq<Seq<char>> },
}

impl DeepView for BuckError {
    type V = BuckErrorModel;

    open spec fn deep_view(&self) -> BuckErrorModel {
        match self {
            BuckError::UnrepresentableBinName { package, name } => {
                BuckErrorModel::UnrepresentableBinName { package: package@, name: name@ }
            },
            BuckError::ImporterNameCollision { target, first, second } => {
                BuckErrorModel::ImporterNameCollision {
                    target: target@,
                    first: first@,
                    second: second@,
                }
            },
            BuckError::UnusableThirdPartyDir { path } => BuckErrorModel::UnusableThirdPartyDir {
                path: path@,
            },
            BuckError::Stale { files } => BuckErrorModel::Stale { files: files.deep_view() },
        }
    }
}

/// Non-fatal findings from expanding `supportedArchitectures`.
#[derive(Debug, PartialEq)]
pub enum DeriveWarning {
    UnknownKey { key: String },
    Win32Skipped,
    UnknownOs { value: String },
    UnknownCpu { value: String },
    UnknownLibc { value: String },
    SupportedArchitecturesNotAMapping,
    NonStringAxisEntry { key: String },
}

/// The mathematical value of a [`DeriveWarning`].
pub enum DeriveWarningModel {
    UnknownKey { key: Seq<char> },
    Win32Skipped,
    UnknownOs { value: Seq<char> },
    UnknownCpu { value: Seq<char> },
    UnknownLibc { value: Seq<char> },
    SupportedArchitecturesNotAMapping,
    NonStringAxisEntry { key: Seq<char> },
}

impl DeepView for DeriveWarning {
    type V = DeriveWarningModel;

    open spec fn deep_view(&self) -> DeriveWarningModel {
        match self {
            DeriveWarning::UnknownKey { key } => DeriveWarningModel::UnknownKey { key: key@ },
            DeriveWarning::Win32Skipped => DeriveWarningModel::Win32Skipped,
            DeriveWarning::UnknownOs { value } => DeriveWarningModel::UnknownOs { value: value@ },
            DeriveWarning::UnknownCpu { value } => DeriveWarningModel::UnknownCpu {
                value: value@,
            },
            DeriveWarning::UnknownLibc { value } => DeriveWarningModel::UnknownLibc {
                value: value@,
            },
            DeriveWarning::SupportedArchitecturesNotAMapping => {
                DeriveWarningModel::SupportedArchitecturesNotAMapping
            },
            DeriveWarning::NonStringAxisEntry { key } => DeriveWarningModel::NonStringAxisEntry {
                key: key@,
            },
        }
    }
}

/// Failures of expanding `supportedArchitectures`.
#[derive(Debug, PartialEq)]
pub enum DeriveError {
    WorkspaceParse { path: String, source: String },
    AxisNotASequence { key: String, example: String },
    NoUsablePlatforms {
        axis: &'static str,
        /// Why each candidate was dropped.
        warnings: Vec<DeriveWarning>,
    },
}

/// The mathematical value of a [`DeriveError`].
pub enum DeriveErrorModel {
    WorkspaceParse { path: Seq<char>, source: Seq<char> },
    AxisNotASequence { key: Seq<char>, example: Seq<char> },
    NoUsablePlatforms { axis: Seq<char>, warnings: Seq<DeriveWarningModel> },
}

impl DeepView for DeriveError {
    type V = DeriveErrorModel;

    open spec fn deep_view(&self) -> DeriveErrorModel {
        match self {
            DeriveError::WorkspaceParse { path, source } => DeriveErrorModel::WorkspaceParse {
                path: path@,
                source: source@,
            },
            DeriveError::AxisNotASequence { key, example } => DeriveErrorModel::AxisNotASequence {
                key: key@,
                example: example@,
            },
            DeriveError::NoUsablePlatforms { axis, warnings } => {
                DeriveErrorModel::NoUsablePlatforms {
                    axis: axis@,
                    warnings: warnings.deep_view(),
                }
            },
        }
    }
}

/// Failures of reading and validating `pudu.toml`.
#[derive(Debug, PartialEq)]
pub enum ConfigError {
    Parse { path: String, source: String },
    LibcOnNonLinux { platform: String },
    WindowsUnsupported { platform: String },
    DuplicatePlatform { first: String, second: String },
    BadConstraintLabel { platform: String, label: String },
    BadRegistryScope { scope: String },
    BadFixupRegistry { value: String },
    BadRegistryUrl { key: String, url: String },
    BadFixupRegistryPath { value: String },
    BadPackageName { name: String },
    BadToolchainLabel { label: String },
    LockfileNotFound { path: String },
    LockfileUnreadable { path: String, source: String },
    ThirdPartyDirNotWritable { path: String, source: String },
    NoPlatforms,
}

/// The mathematical value of a [`ConfigError`].
pub enum ConfigErrorModel {
    Parse { path: Seq<char>, source: Seq<char> },
    LibcOnNonLinux { platform: Seq<char> },
    WindowsUnsupported { platform: Seq<char> },
    DuplicatePlatform { first: Seq<char>, second: Seq<char> },
    BadConstraintLabel { platform: Seq<char>, label: Seq<char> },
    BadRegistryScope { scope: Seq<char> },
    BadFixupRegistry { value: Seq<char> },
    BadRegistryUrl { key: Seq<char>, url: Seq<char> },
    BadFixupRegistryPath { value: Seq<char> },
    BadPackageName { name: Seq<char> },
    BadToolchainLabel { label: Seq<char> },
    LockfileNotFound { path: Seq<char> },
    LockfileUnreadable { path: Seq<char>, source: Seq<char> },
    ThirdPartyDirNotWritable { path: Seq<char>, source: Seq<char> },
    NoPlatforms,
}

impl DeepView for ConfigError {
    type V = ConfigErrorModel;

    open spec fn deep_view(&self) -> ConfigErrorModel {
        match self {
            ConfigError::Parse { path, source } => ConfigErrorModel::Parse {
                path: path@,
                source: source@,
            },
            ConfigError::LibcOnNonLinux { platform } => ConfigErrorModel::LibcOnNonLinux {
                platform: platform@,
            },
            ConfigError::WindowsUnsupported { platform } => ConfigErrorModel::WindowsUnsupported {
                platform: platform@,
            },
            ConfigError::DuplicatePlatform { first, second } => ConfigErrorModel::DuplicatePlatform {
                first: first@,
                second: second@,
            },
            ConfigError::BadConstraintLabel { platform, label } => ConfigErrorModel::BadConstraintLabel {
                platform: platform@,
                label: label@,
            },
            ConfigError::BadRegistryScope { scope } => ConfigErrorModel::BadRegistryScope {
                scope: scope@,
            },
            ConfigError::BadFixupRegistry { value } => ConfigErrorModel::BadFixupRegistry {
                value: value@,
            },
            ConfigError::BadRegistryUrl { key, url } => ConfigErrorModel::BadRegistryUrl {
                key: key@,
                url: url@,
            },
            ConfigError::BadFixupRegistryPath { value } => ConfigErrorModel::BadFixupRegistryPath {
                value: value@,
            },
            ConfigError::BadPackageName { name } => ConfigErrorModel::BadPackageName {
                name: name@,
            },
            ConfigError::BadToolchainLabel { label } => ConfigErrorModel::BadToolchainLabel {
                label: label@,
            },
            ConfigError::LockfileNotFound { path } => ConfigErrorModel::LockfileNotFound {
                path: path@,
            },
            ConfigError::LockfileUnreadable { path, source } => ConfigErrorModel::LockfileUnreadable {
                path: path@,
                source: source@,
            },
            ConfigError::ThirdPartyDirNotWritable { path, source } => ConfigErrorModel::ThirdPartyDirNotWritable {
                path: path@,
                source: source@,
            },
            ConfigError::NoPlatforms => ConfigErrorModel::NoPlatforms,
        }
    }
}

/// Non-fatal findings from validating the configuration.
#[derive(Debug, PartialEq)]
pub enum ConfigWarning {
    SinglePlatform { name: String },
    UnpinnedFixupRegistry,
}

/// The mathematical value of a [`ConfigWarning`].
pub enum ConfigWarningModel {
    SinglePlatform { name: Seq<char> },
    UnpinnedFixupRegistry,
}

impl DeepView for ConfigWarning {
    type V = ConfigWarningModel;

    open spec fn deep_view(&self) -> ConfigWarningModel {
        match self {
            ConfigWarning::SinglePlatform { name } => ConfigWarningModel::SinglePlatform {
                name: name@,
            },
            ConfigWarning::UnpinnedFixupRegistry => ConfigWarningModel::UnpinnedFixupRegistry,
        }
    }
}

/// Failures of `pudu vendor`.
#[derive(Debug, PartialEq)]
pub enum VendorError {
    Stale { differences: Vec<String> },
    UnsupportedResolution { packages: Vec<String> },
    IntegrityMismatch { key: String, url: String, expected: String, actual: String },
    MalformedTarball { key: String, reason: String },
    MissingPackageJson { key: String },
    MalformedIntegrity { key: String, integrity: String },
    BadDerivedUrl { key: String, name: String, url: String },
    TableMalformed { path: String, reason: String },
    NetworkDisabled { key: String, url: String },
    HttpStatus { key: String, url: String, status: u16 },
    Transport { key: String, url: String, source: String },
    CacheUnavailable,
    CacheWriteFailed { path: String, source: String },
}

/// The mathematical value of a [`VendorError`].
pub enum VendorErrorModel {
    Stale { differences: Seq<Seq<char>> },
    UnsupportedResolution { packages: Seq<Seq<char>> },
    IntegrityMismatch { key: Seq<char>, url: Seq<char>, expected: Seq<char>, actual: Seq<char> },
    MalformedTarball { key: Seq<char>, reason: Seq<char> },
    MissingPackageJson { key: Seq<char> },
    MalformedIntegrity { key: Seq<char>, integrity: Seq<char> },
    BadDerivedUrl { key: Seq<char>, name: Seq<char>, url: Seq<char> },
    TableMalformed { path: Seq<char>, reason: Seq<char> },
    NetworkDisabled { key: Seq<char>, url: Seq<char> },
    HttpStatus { key: Seq<char>, url: Seq<char>, status: u16 },
    Transport { key: Seq<char>, url: Seq<char>, source: Seq<char> },
    CacheUnavailable,
    CacheWriteFailed { path: Seq<char>, source: Seq<char> },
}

impl DeepView for VendorError {
    type V = VendorErrorModel;

    open spec fn deep_view(&self) -> VendorErrorModel {
        match self {
            VendorError::Stale { differences } => VendorErrorModel::Stale {
                differences: differences.deep_view(),
            },
            VendorError::UnsupportedResolution { packages } => VendorErrorModel::UnsupportedResolution {
                packages: packages.deep_view(),
            },
            VendorError::IntegrityMismatch { key, url, expected, actual } => VendorErrorModel::IntegrityMismatch {
                key: key@,
                url: url@,
                expected: expected@,
                actual: actual@,
            },
            VendorError::MalformedTarball { key, reason } => VendorErrorModel::MalformedTarball {
                key: key@,
                reason: reason@,
            },
            VendorError::MissingPackageJson { key } => VendorErrorModel::MissingPackageJson {
                key: key@,
            },
            VendorError::MalformedIntegrity { key, integrity } => VendorErrorModel::MalformedIntegrity {
                key: key@,
                integrity: integrity@,
            },
            VendorError::BadDerivedUrl { key, name, url } => VendorErrorModel::BadDerivedUrl {
                key: key@,
                name: name@,
                url: url@,
            },
            VendorError::TableMalformed { path, reason } => VendorErrorModel::TableMalformed {
                path: path@,
                reason: reason@,
            },
            VendorError::NetworkDisabled { key, url } => VendorErrorModel::NetworkDisabled {
                key: key@,
                url: url@,
            },
            VendorError::HttpStatus { key, url, status } => VendorErrorModel::HttpStatus {
                key: key@,
                url: url@,
                status: *status,
            },
            VendorError::Transport { key, url, source } => VendorErrorModel::Transport {
                key: key@,
                url: url@,
                source: source@,
            },
            VendorError::CacheUnavailable => VendorErrorModel::CacheUnavailable,
            VendorError::CacheWriteFailed { path, source } => VendorErrorModel::CacheWriteFailed {
                path: path@,
                source: source@,
            },
        }
    }
}

/// Non-fatal findings from inspecting a tarball.
#[derive(Debug, PartialEq)]
pub enum VendorWarning {
    HasBinDisagreement { key: String, lockfile: bool, found: usize },
    BinNameRejected { key: String, name: String },
    BinPathEscapes { key: String, name: String, path: String },
    BinNameCollision { key: String, name: String },
    NonStringBinValue { key: String, name: String },
}

/// The mathematical value of a [`VendorWarning`].
pub enum VendorWarningModel {
    HasBinDisagreement { key: Seq<char>, lockfile: bool, found: int },
    BinNameRejected { key: Seq<char>, name: Seq<char> },
    BinPathEscapes { key: Seq<char>, name: Seq<char>, path: Seq<char> },
    BinNameCollision { key: Seq<char>, name: Seq<char> },
    NonStringBinValue { key: Seq<char>, name: Seq<char> },
}

impl DeepView for VendorWarning {
    type V = VendorWarningModel;

    open spec fn deep_view(&self) -> VendorWarningModel {
        match self {
            VendorWarning::HasBinDisagreement { key, lockfile, found } => VendorWarningModel::HasBinDisagreement {
                key: key@,
                lockfile: *lockfile,
                found: *found as int,
            },
            VendorWarning::BinNameRejected { key, name } => VendorWarningModel::BinNameRejected {
                key: key@,
                name: name@,
            },
            VendorWarning::BinPathEscapes { key, name, path } => VendorWarningModel::BinPathEscapes {
                key: key@,
                name: name@,
                path: path@,
            },
            VendorWarning::BinNameCollision { key, name } => VendorWarningModel::BinNameCollision {
                key: key@,
                name: name@,
            },
            VendorWarning::NonStringBinValue { key, name } => VendorWarningModel::NonStringBinValue {
                key: key@,
                name: name@,
            },
        }
    }
}

/// Non-fatal lockfile observations.
#[derive(Debug, PartialEq)]
pub enum LockWarning {
    UnknownTopLevelKey { key: String },
    DeprecatedPackage { key: String, message: String },
}

/// The mathematical value of a [`LockWarning`].
pub enum LockWarningModel {
    UnknownTopLevelKey { key: Seq<char> },
    DeprecatedPackage { key: Seq<char>, message: Seq<char> },
}

impl DeepView for LockWarning {
    type V = LockWarningModel;

    open spec fn deep_view(&self) -> LockWarningModel {
        match self {
            LockWarning::UnknownTopLevelKey { key } => LockWarningModel::UnknownTopLevelKey {
                key: key@,
            },
            LockWarning::DeprecatedPackage { key, message } => LockWarningModel::DeprecatedPackage {
                key: key@,
                message: message@,
            },
        }
    }
}

/// Non-fatal findings from scaffolding a project.
#[derive(Debug, PartialEq)]
pub enum InitWarning {
    CellRootGuess { init_root: String, lockfile_dir: String },
    ThirdPartyFileExists { path: String },
    ExistingToolchain { path: String, name: String, recorded: String },
    ToolchainNameUnparsed { path: String, name: String },
    UnbalancedMarkers { path: String },
}

/// The mathematical value of an [`InitWarning`].
pub enum InitWarningModel {
    CellRootGuess { init_root: Seq<char>, lockfile_dir: Seq<char> },
    ThirdPartyFileExists { path: Seq<char> },
    ExistingToolchain { path: Seq<char>, name: Seq<char>, recorded: Seq<char> },
    ToolchainNameUnparsed { path: Seq<char>, name: Seq<char> },
    UnbalancedMarkers { path: Seq<char> },
}

impl DeepView for InitWarning {
    type V = InitWarningModel;

    open spec fn deep_view(&self) -> InitWarningModel {
        match self {
            InitWarning::CellRootGuess { init_root, lockfile_dir } => InitWarningModel::CellRootGuess {
                init_root: init_root@,
                lockfile_dir: lockfile_dir@,
            },
            InitWarning::ThirdPartyFileExists { path } => InitWarningModel::ThirdPartyFileExists {
                path: path@,
            },
            InitWarning::ExistingToolchain { path, name, recorded } => InitWarningModel::ExistingToolchain {
                path: path@,
                name: name@,
                recorded: recorded@,
            },
            InitWarning::ToolchainNameUnparsed { path, name } => InitWarningModel::ToolchainNameUnparsed {
                path: path@,
                name: name@,
            },
            InitWarning::UnbalancedMarkers { path } => InitWarningModel::UnbalancedMarkers {
                path: path@,
            },
        }
    }
}

/// Command failures whose exit code is not that of an unexpected error.
#[derive(Debug, PartialEq)]
pub enum CliError {
    Unimplemented { verb: String, stage: String },
    ConfigExists { path: String },
    ConfigUnreadable { path: String, source: String },
    ConfigInvalid { count: usize },
    BadDirectory { path: String, source: String },
}

/// The mathematical value of a [`CliError`].
pub enum CliErrorModel {
    Unimplemented { verb: Seq<char>, stage: Seq<char> },
    ConfigExists { path: Seq<char> },
    ConfigUnreadable { path: Seq<char>, source: Seq<char> },
    ConfigInvalid { count: int },
    BadDirectory { path: Seq<char>, source: Seq<char> },
}

impl DeepView for CliError {
    type V = CliErrorModel;

    open spec fn deep_view(&self) -> CliErrorModel {
        match self {
            CliError::Unimplemented { verb, stage } => CliErrorModel::Unimplemented {
                verb: verb@,
                stage: stage@,
            },
            CliError::ConfigExists { path } => CliErrorModel::ConfigExists {
                path: path@,
            },
            CliError::ConfigUnreadable { path, source } => CliErrorModel::ConfigUnreadable {
                path: path@,
                source: source@,
            },
            CliError::ConfigInvalid { count } => CliErrorModel::ConfigInvalid {
                count: *count as int,
            },
            CliError::BadDirectory { path, source } => CliErrorModel::BadDirectory {
                path: path@,
                source: source@,
            },
        }
    }
}

// --- Messages -------------------------------------------------------------------------

/// A text, or the word for none.
pub open spec fn absent_or(found: Option<Seq<char>>) -> Seq<char> {
    match found {
        Some(text) => text,
        None => "absent"@,
    }
}

/// A list of names as one paragraph, cut short behind `cap` of them.
pub open spec fn capped_text(items: Seq<Seq<char>>, cap: int) -> Seq<char> {
    if items.len() <= cap {
        join_with(items, ", "@)
    } else {
        join_with(items.take(cap), ", "@) + ", …and "@ + decimal_text((items.len() - cap) as nat)
            + " more"@
    }
}

/// Render a name list as a comma-separated paragraph, capped so that a large
/// aggregate stays readable.
pub fn capped_list(items: &Vec<String>, cap: usize) -> (r: String)
    ensures
        r@ == capped_text(items.deep_view(), cap as int),
{
    if items.len() <= cap {
        join(items, ", ")
    } else {
        let mut out = join_first(items, cap, ", ");
        out.append(", …and ");
        out.append(decimal((items.len() - cap) as u64).as_str());
        out.append(" more");
        out
    }
}

impl LockError {
    /// The message in words.
    pub open spec fn text(&self) -> Seq<char> {
        match self {
            LockError::UnsupportedVersion { found } => {
                "unsupported lockfileVersion: "@ + absent_or(found.deep_view()) + " (pudu supports 9.0)"@
            },
            LockError::Yaml { path, source } => {
                "could not parse "@ + path@
            },
            LockError::KeyParse { key, offset, reason } => {
                "invalid snapshot key `"@ + key@ + "` at byte "@ + decimal_text(*offset as nat) + ": "@ + reason@
            },
            LockError::MissingPackageMeta { snapshot, base } => {
                "snapshot `"@ + snapshot@ + "` has no entry under `packages:` for `"@ + base@ + "`"@
            },
            LockError::UnresolvedEdge { from, link_name, resolved } => {
                "`"@ + from@ + "` depends on `"@ + link_name@ + "`, which resolves to `"@ + resolved@ + "` — absent from `snapshots:`"@
            },
            LockError::TargetNameCollision { a, b, target } => {
                "`"@ + a@ + "` and `"@ + b@ + "` both map to the Buck target name `"@ + target@ + "`"@
            },
            LockError::DuplicateLinkName { snapshot, link_name } => {
                "`"@ + snapshot@ + "` lists `"@ + link_name@ + "` in both `dependencies` and `optionalDependencies`"@
            },
            LockError::PatchedDependencies => {
                "this lockfile uses patchedDependencies, which pudu cannot reproduce"@
            },
            LockError::ExcludedLinks => {
                "this lockfile was written with excludeLinksFromLockfile: true"@
            },
        }
    }

    /// The message in words.
    pub fn message(&self) -> (r: String)
        ensures
            r@ == self.text(),
    {
        match self {
            LockError::UnsupportedVersion { found } => {
                let mut out = "unsupported lockfileVersion: ".to_owned();
                match found {
                    Some(text) => out.append(text.as_str()),
                    None => out.append("absent"),
                }
                out.append(" (pudu supports 9.0)");
                out
            },
            LockError::Yaml { path, source } => {
                let mut out = "could not parse ".to_owned();
                out.append(path.as_str());
                out
            },
            LockError::KeyParse { key, offset, reason } => {
                let mut out = "invalid snapshot key `".to_owned();
                out.append(key.as_str());
                out.append("` at byte ");
                out.append(decimal(*offset as u64).as_str());
                out.append(": ");
                out.append(reason.as_str());
                out
            },
            LockError::MissingPackageMeta { snapshot, base } => {
                let mut out = "snapshot `".to_owned();
                out.append(snapshot.as_str());
                out.append("` has no entry under `packages:` for `");
                out.append(base.as_str());
                out.append("`");
                out
            },
            LockError::UnresolvedEdge { from, link_name, resolved } => {
                let mut out = "`".to_owned();
                out.append(from.as_str());
                out.append("` depends on `");
                out.append(link_name.as_str());
                out.append("`, which resolves to `");
                out.append(resolved.as_str());
                out.append("` — absent from `snapshots:`");
                out
            },
            LockError::TargetNameCollision { a, b, target } => {
                let mut out = "`".to_owned();
                out.append(a.as_str());
                out.append("` and `");
                out.append(b.as_str());
                out.append("` both map to the Buck target name `");
                out.append(target.as_str());
                out.append("`");
                out
            },
            LockError::DuplicateLinkName { snapshot, link_name } => {
                let mut out = "`".to_owned();
                out.append(snapshot.as_str());
                out.append("` lists `");
                out.append(link_name.as_str());
                out.append("` in both `dependencies` and `optionalDependencies`");
                out
            },
            LockError::PatchedDependencies => "this lockfile uses patchedDependencies, which pudu cannot reproduce".to_owned(),
            LockError::ExcludedLinks => "this lockfile was written with excludeLinksFromLockfile: true".to_owned(),
        }
    }
}

impl LockWarning {
    /// The message in words.
    pub open spec fn text(&self) -> Seq<char> {
        match self {
            LockWarning::UnknownTopLevelKey { key } => {
                "unrecognised top-level key `"@ + key@ + "` in the lockfile"@
            },
            LockWarning::DeprecatedPackage { key, message } => {
                "`"@ + key@ + "` is deprecated: "@ + message@
            },
        }
    }

    /// The message in words.
    pub fn message(&self) -> (r: String)
        ensures
            r@ == self.text(),
    {
        match self {
            LockWarning::UnknownTopLevelKey { key } => {
                let mut out = "unrecognised top-level key `".to_owned();
                out.append(key.as_str());
                out.append("` in the lockfile");
                out
            },
            LockWarning::DeprecatedPackage { key, message } => {
                let mut out = "`".to_owned();
                out.append(key.as_str());
                out.append("` is deprecated: ");
                out.append(message.as_str());
                out
            },
        }
    }
}

impl PlatformWarning {
    /// The message in words.
    pub open spec fn text(&self) -> Seq<char> {
        match self {
            PlatformWarning::RequiredDependencyExcluded { dependent, target, platform } => {
                "`"@ + dependent@ + "` requires `"@ + target@ + "`, which is excluded on platform `"@ + platform@ + "`"@
            },
            PlatformWarning::ExcludedEverywhere { packages, platforms } => {
                decimal_text(packages@.len()) + " package(s) are excluded on every configured platform ("@ + join_with(platforms.deep_view(), ", "@) + "): "@ + capped_text(packages.deep_view(), 10)
            },
        }
    }

    /// The message in words.
    pub fn message(&self) -> (r: String)
        ensures
            r@ == self.text(),
    {
        match self {
            PlatformWarning::RequiredDependencyExcluded { dependent, target, platform } => {
                let mut out = "`".to_owned();
                out.append(dependent.as_str());
                out.append("` requires `");
                out.append(target.as_str());
                out.append("`, which is excluded on platform `");
                out.append(platform.as_str());
                out.append("`");
                out
            },
            PlatformWarning::ExcludedEverywhere { packages, platforms } => {
                let mut out = decimal(packages.len() as u64);
                out.append(" package(s) are excluded on every configured platform (");
                out.append(join(platforms, ", ").as_str());
                out.append("): ");
                out.append(capped_list(packages, 10).as_str());
                out
            },
        }
    }
}

impl BuckError {
    /// The message in words.
    pub open spec fn text(&self) -> Seq<char> {
        match self {
            BuckError::UnrepresentableBinName { package, name } => {
                package@ + ": buck2 cannot address the bin name `"@ + name@ + "`"@
            },
            BuckError::ImporterNameCollision { target, first, second } => {
                "importers `"@ + first@ + "` and `"@ + second@ + "` both map to the Buck target name `"@ + target@ + "`"@
            },
            BuckError::UnusableThirdPartyDir { path } => {
                "third-party directory `"@ + path@ + "` is not a normalized relative path"@
            },
            BuckError::Stale { files } => {
                decimal_text(files@.len()) + " generated file(s) are out of date: "@ + join_with(files.deep_view(), ", "@)
            },
        }
    }

    /// The message in words.
    pub fn message(&self) -> (r: String)
        ensures
            r@ == self.text(),
    {
        match self {
            BuckError::UnrepresentableBinName { package, name } => {
                let mut out = package.clone();
                out.append(": buck2 cannot address the bin name `");
                out.append(name.as_str());
                out.append("`");
                out
            },
            BuckError::ImporterNameCollision { target, first, second } => {
                let mut out = "importers `".to_owned();
                out.append(first.as_str());
                out.append("` and `");
                out.append(second.as_str());
                out.append("` both map to the Buck target name `");
                out.append(target.as_str());
                out.append("`");
                out
            },
            BuckError::UnusableThirdPartyDir { path } => {
                let mut out = "third-party directory `".to_owned();
                out.append(path.as_str());
                out.append("` is not a normalized relative path");
                out
            },
            BuckError::Stale { files } => {
                let mut out = decimal(files.len() as u64);
                out.append(" generated file(s) are out of date: ");
                out.append(join(files, ", ").as_str());
                out
            },
        }
    }
}

impl DeriveWarning {
    /// The message in words.
    pub open spec fn text(&self) -> Seq<char> {
        match self {
            DeriveWarning::UnknownKey { key } => {
                "pnpm-workspace.yaml: ignoring unrecognized supportedArchitectures key `"@ + key@ + "`"@
            },
            DeriveWarning::Win32Skipped => {
                "pnpm-workspace.yaml: skipping `win32` — Windows is a Phase 2 deliverable, see https://github.com/rsJames-ttrpg/pudu/blob/main/docs/superpowers/specs/2026-08-30-pudu-roadmap.md"@
            },
            DeriveWarning::UnknownOs { value } => {
                "pnpm-workspace.yaml: ignoring unknown os `"@ + value@ + "`"@
            },
            DeriveWarning::UnknownCpu { value } => {
                "pnpm-workspace.yaml: ignoring unknown cpu `"@ + value@ + "`"@
            },
            DeriveWarning::UnknownLibc { value } => {
                "pnpm-workspace.yaml: ignoring unknown libc `"@ + value@ + "`"@
            },
            DeriveWarning::SupportedArchitecturesNotAMapping => {
                "pnpm-workspace.yaml: supportedArchitectures must be a mapping of os/cpu/libc lists"@
            },
            DeriveWarning::NonStringAxisEntry { key } => {
                "pnpm-workspace.yaml: ignoring non-string entry in supportedArchitectures."@ + key@
            },
        }
    }

    /// The message in words.
    pub fn message(&self) -> (r: String)
        ensures
            r@ == self.text(),
    {
        match self {
            DeriveWarning::UnknownKey { key } => {
                let mut out = "pnpm-workspace.yaml: ignoring unrecognized supportedArchitectures key `".to_owned();
                out.append(key.as_str());
                out.append("`");
                out
            },
            DeriveWarning::Win32Skipped => "pnpm-workspace.yaml: skipping `win32` — Windows is a Phase 2 deliverable, see https://github.com/rsJames-ttrpg/pudu/blob/main/docs/superpowers/specs/2026-08-30-pudu-roadmap.md".to_owned(),
            DeriveWarning::UnknownOs { value } => {
                let mut out = "pnpm-workspace.yaml: ignoring unknown os `".to_owned();
                out.append(value.as_str());
                out.append("`");
                out
            },
            DeriveWarning::UnknownCpu { value } => {
                let mut out = "pnpm-workspace.yaml: ignoring unknown cpu `".to_owned();
                out.append(value.as_str());
                out.append("`");
                out
            },
            DeriveWarning::UnknownLibc { value } => {
                let mut out = "pnpm-workspace.yaml: ignoring unknown libc `".to_owned();
                out.append(value.as_str());
                out.append("`");
                out
            },
            DeriveWarning::SupportedArchitecturesNotAMapping => "pnpm-workspace.yaml: supportedArchitectures must be a mapping of os/cpu/libc lists".to_owned(),
            DeriveWarning::NonStringAxisEntry { key } => {
                let mut out = "pnpm-workspace.yaml: ignoring non-string entry in supportedArchitectures.".to_owned();
                out.append(key.as_str());
                out
            },
        }
    }
}

impl DeriveError {
    /// The message in words.
    pub open spec fn text(&self) -> Seq<char> {
        match self {
            DeriveError::WorkspaceParse { path, source } => {
                "cannot parse "@ + path@
            },
            DeriveError::AxisNotASequence { key, example } => {
                "pnpm-workspace.yaml: supportedArchitectures."@ + key@ + " must be a list, e.g. `"@ + key@ + ": ["@ + example@ + "]`"@
            },
            DeriveError::NoUsablePlatforms { axis, warnings } => {
                "pnpm-workspace.yaml declares no supported platforms pudu can target (the `"@ + axis@ + "` axis of `supportedArchitectures` resolved to nothing usable)"@
            },
        }
    }

    /// The message in words.
    pub fn message(&self) -> (r: String)
        ensures
            r@ == self.text(),
    {
        match self {
            DeriveError::WorkspaceParse { path, source } => {
                let mut out = "cannot parse ".to_owned();
                out.append(path.as_str());
                out
            },
            DeriveError::AxisNotASequence { key, example } => {
                let mut out = "pnpm-workspace.yaml: supportedArchitectures.".to_owned();
                out.append(key.as_str());
                out.append(" must be a list, e.g. `");
                out.append(key.as_str());
                out.append(": [");
                out.append(example.as_str());
                out.append("]`");
                out
            },
            DeriveError::NoUsablePlatforms { axis, warnings } => {
                let mut out = "pnpm-workspace.yaml declares no supported platforms pudu can target (the `".to_owned();
                out.append(axis);
                out.append("` axis of `supportedArchitectures` resolved to nothing usable)");
                out
            },
        }
    }
}

impl ConfigError {
    /// The message in words.
    pub open spec fn text(&self) -> Seq<char> {
        match self {
            ConfigError::Parse { path, source } => {
                "failed to parse "@ + path@
            },
            ConfigError::LibcOnNonLinux { platform } => {
                "platform `"@ + platform@ + "`: `libc` applies only to linux"@
            },
            ConfigError::WindowsUnsupported { platform } => {
                "platform `"@ + platform@ + "`: windows is not supported in v1"@
            },
            ConfigError::DuplicatePlatform { first, second } => {
                "platforms `"@ + first@ + "` and `"@ + second@ + "` resolve to the same (os, cpu, libc)"@
            },
            ConfigError::BadConstraintLabel { platform, label } => {
                "platform `"@ + platform@ + "`: `"@ + label@ + "` is not a Buck target label"@
            },
            ConfigError::BadRegistryScope { scope } => {
                "registry scope `"@ + scope@ + "` must start with `@`"@
            },
            ConfigError::BadFixupRegistry { value } => {
                "`[fixups].registry` value `"@ + value@ + "` is not recognized"@
            },
            ConfigError::BadRegistryUrl { key, url } => {
                "registry `"@ + key@ + "` is `"@ + url@ + "`, which is not an http(s) URL"@
            },
            ConfigError::BadFixupRegistryPath { value } => {
                "`[fixups].registry` value `"@ + value@ + "` has no absolute path after `file://`"@
            },
            ConfigError::BadPackageName { name } => {
                "`[scripts].allow` entry `"@ + name@ + "` is not a valid npm package name"@
            },
            ConfigError::BadToolchainLabel { label } => {
                "`[buck].node_toolchain` value `"@ + label@ + "` is not a Buck target label"@
            },
            ConfigError::LockfileNotFound { path } => {
                "lockfile not found at "@ + path@
            },
            ConfigError::LockfileUnreadable { path, source } => {
                "cannot read lockfile "@ + path@
            },
            ConfigError::ThirdPartyDirNotWritable { path, source } => {
                "third-party directory "@ + path@ + " is not writable"@
            },
            ConfigError::NoPlatforms => {
                "no platforms configured"@
            },
        }
    }

    /// The message in words.
    pub fn message(&self) -> (r: String)
        ensures
            r@ == self.text(),
    {
        match self {
            ConfigError::Parse { path, source } => {
                let mut out = "failed to parse ".to_owned();
                out.append(path.as_str());
                out
            },
            ConfigError::LibcOnNonLinux { platform } => {
                let mut out = "platform `".to_owned();
                out.append(platform.as_str());
                out.append("`: `libc` applies only to linux");
                out
            },
            ConfigError::WindowsUnsupported { platform } => {
                let mut out = "platform `".to_owned();
                out.append(platform.as_str());
                out.append("`: windows is not supported in v1");
                out
            },
            ConfigError::DuplicatePlatform { first, second } => {
                let mut out = "platforms `".to_owned();
                out.append(first.as_str());
                out.append("` and `");
                out.append(second.as_str());
                out.append("` resolve to the same (os, cpu, libc)");
                out
            },
            ConfigError::BadConstraintLabel { platform, label } => {
                let mut out = "platform `".to_owned();
                out.append(platform.as_str());
                out.append("`: `");
                out.append(label.as_str());
                out.append("` is not a Buck target label");
                out
            },
            ConfigError::BadRegistryScope { scope } => {
                let mut out = "registry scope `".to_owned();
                out.append(scope.as_str());
                out.append("` must start with `@`");
                out
            },
            ConfigError::BadFixupRegistry { value } => {
                let mut out = "`[fixups].registry` value `".to_owned();
                out.append(value.as_str());
                out.append("` is not recognized");
                out
            },
            ConfigError::BadRegistryUrl { key, url } => {
                let mut out = "registry `".to_owned();
                out.append(key.as_str());
                out.append("` is `");
                out.append(url.as_str());
                out.append("`, which is not an http(s) URL");
                out
            },
            ConfigError::BadFixupRegistryPath { value } => {
                let mut out = "`[fixups].registry` value `".to_owned();
                out.append(value.as_str());
                out.append("` has no absolute path after `file://`");
                out
            },
            ConfigError::BadPackageName { name } => {
                let mut out = "`[scripts].allow` entry `".to_owned();
                out.append(name.as_str());
                out.append("` is not a valid npm package name");
                out
            },
            ConfigError::BadToolchainLabel { label } => {
                let mut out = "`[buck].node_toolchain` value `".to_owned();
                out.append(label.as_str());
                out.append("` is not a Buck target label");
                out
            },
            ConfigError::LockfileNotFound { path } => {
                let mut out = "lockfile not found at ".to_owned();
                out.append(path.as_str());
                out
            },
            ConfigError::LockfileUnreadable { path, source } => {
                let mut out = "cannot read lockfile ".to_owned();
                out.append(path.as_str());
                out
            },
            ConfigError::ThirdPartyDirNotWritable { path, source } => {
                let mut out = "third-party directory ".to_owned();
                out.append(path.as_str());
                out.append(" is not writable");
                out
            },
            ConfigError::NoPlatforms => "no platforms configured".to_owned(),
        }
    }
}

impl ConfigWarning {
    /// The message in words.
    pub open spec fn text(&self) -> Seq<char> {
        match self {
            ConfigWarning::SinglePlatform { name } => {
                "only one platform is configured (`"@ + name@ + "`); generated rules will not vary by platform"@
            },
            ConfigWarning::UnpinnedFixupRegistry => {
                "`[fixups].registry` is set but `registry_rev` is not pinned"@
            },
        }
    }

    /// The message in words.
    pub fn message(&self) -> (r: String)
        ensures
            r@ == self.text(),
    {
        match self {
            ConfigWarning::SinglePlatform { name } => {
                let mut out = "only one platform is configured (`".to_owned();
                out.append(name.as_str());
                out.append("`); generated rules will not vary by platform");
                out
            },
            ConfigWarning::UnpinnedFixupRegistry => "`[fixups].registry` is set but `registry_rev` is not pinned".to_owned(),
        }
    }
}

impl VendorError {
    /// The message in words.
    pub open spec fn text(&self) -> Seq<char> {
        match self {
            VendorError::Stale { differences } => {
                "packages.toml is out of date ("@ + decimal_text(differences@.len()) + " difference(s))"@
            },
            VendorError::UnsupportedResolution { packages } => {
                decimal_text(packages@.len()) + " package(s) use a dependency source pudu cannot verify: "@ + capped_text(packages.deep_view(), 10)
            },
            VendorError::IntegrityMismatch { key, url, expected, actual } => {
                key@ + ": tarball does not match the integrity recorded in pnpm-lock.yaml\n  url:      "@ + url@ + "\n  expected: "@ + expected@ + "\n  actual:   "@ + actual@
            },
            VendorError::MalformedTarball { key, reason } => {
                key@ + ": "@ + reason@
            },
            VendorError::MissingPackageJson { key } => {
                key@ + ": tarball's root directory contains no package.json"@
            },
            VendorError::MalformedIntegrity { key, integrity } => {
                key@ + ": cannot read integrity `"@ + integrity@ + "`"@
            },
            VendorError::BadDerivedUrl { key, name, url } => {
                key@ + ": derived tarball URL is not a valid URL: "@ + url@
            },
            VendorError::TableMalformed { path, reason } => {
                "cannot read "@ + path@ + ": "@ + reason@
            },
            VendorError::NetworkDisabled { key, url } => {
                key@ + ": "@ + url@ + " is not in the cache and --no-network was given"@
            },
            VendorError::HttpStatus { key, url, status } => {
                key@ + ": "@ + url@ + " returned HTTP "@ + decimal_text(*status as nat)
            },
            VendorError::Transport { key, url, source } => {
                key@ + ": cannot fetch "@ + url@
            },
            VendorError::CacheUnavailable => {
                "no cache directory available"@
            },
            VendorError::CacheWriteFailed { path, source } => {
                "cannot write to the cache at "@ + path@
            },
        }
    }

    /// The message in words.
    pub fn message(&self) -> (r: String)
        ensures
            r@ == self.text(),
    {
        match self {
            VendorError::Stale { differences } => {
                let mut out = "packages.toml is out of date (".to_owned();
                out.append(decimal(differences.len() as u64).as_str());
                out.append(" difference(s))");
                out
            },
            VendorError::UnsupportedResolution { packages } => {
                let mut out = decimal(packages.len() as u64);
                out.append(" package(s) use a dependency source pudu cannot verify: ");
                out.append(capped_list(packages, 10).as_str());
                out
            },
            VendorError::IntegrityMismatch { key, url, expected, actual } => {
                let mut out = key.clone();
                out.append(": tarball does not match the integrity recorded in pnpm-lock.yaml\n  url:      ");
                out.append(url.as_str());
                out.append("\n  expected: ");
                out.append(expected.as_str());
                out.append("\n  actual:   ");
                out.append(actual.as_str());
                out
            },
            VendorError::MalformedTarball { key, reason } => {
                let mut out = key.clone();
                out.append(": ");
                out.append(reason.as_str());
                out
            },
            VendorError::MissingPackageJson { key } => {
                let mut out = key.clone();
                out.append(": tarball's root directory contains no package.json");
                out
            },
            VendorError::MalformedIntegrity { key, integrity } => {
                let mut out = key.clone();
                out.append(": cannot read integrity `");
                out.append(integrity.as_str());
                out.append("`");
                out
            },
            VendorError::BadDerivedUrl { key, name, url } => {
                let mut out = key.clone();
                out.append(": derived tarball URL is not a valid URL: ");
                out.append(url.as_str());
                out
            },
            VendorError::TableMalformed { path, reason } => {
                let mut out = "cannot read ".to_owned();
                out.append(path.as_str());
                out.append(": ");
                out.append(reason.as_str());
                out
            },
            VendorError::NetworkDisabled { key, url } => {
                let mut out = key.clone();
                out.append(": ");
                out.append(url.as_str());
                out.append(" is not in the cache and --no-network was given");
                out
            },
            VendorError::HttpStatus { key, url, status } => {
                let mut out = key.clone();
                out.append(": ");
                out.append(url.as_str());
                out.append(" returned HTTP ");
                out.append(decimal(*status as u64).as_str());
                out
            },
            VendorError::Transport { key, url, source } => {
                let mut out = key.clone();
                out.append(": cannot fetch ");
                out.append(url.as_str());
                out
            },
            VendorError::CacheUnavailable => "no cache directory available".to_owned(),
            VendorError::CacheWriteFailed { path, source } => {
                let mut out = "cannot write to the cache at ".to_owned();
                out.append(path.as_str());
                out
            },
        }
    }
}

impl VendorWarning {
    /// The message in words.
    pub open spec fn text(&self) -> Seq<char> {
        match self {
            VendorWarning::HasBinDisagreement { key, lockfile, found } => {
                key@ + ": pnpm-lock.yaml says hasBin: "@ + flag_text(*lockfile) + ", but the tarball yields "@ + decimal_text(*found as nat) + " command(s)"@
            },
            VendorWarning::BinNameRejected { key, name } => {
                key@ + ": dropping bin `"@ + name@ + "` — the name is not URL-safe"@
            },
            VendorWarning::BinPathEscapes { key, name, path } => {
                key@ + ": dropping bin `"@ + name@ + "` — its path `"@ + path@ + "` is empty or escapes the package"@
            },
            VendorWarning::BinNameCollision { key, name } => {
                key@ + ": two bins named `"@ + name@ + "`; keeping the last"@
            },
            VendorWarning::NonStringBinValue { key, name } => {
                key@ + ": dropping bin `"@ + name@ + "` — its value is not a string"@
            },
        }
    }

    /// The message in words.
    pub fn message(&self) -> (r: String)
        ensures
            r@ == self.text(),
    {
        match self {
            VendorWarning::HasBinDisagreement { key, lockfile, found } => {
                let mut out = key.clone();
                out.append(": pnpm-lock.yaml says hasBin: ");
                out.append(flag(*lockfile).as_str());
                out.append(", but the tarball yields ");
                out.append(decimal(*found as u64).as_str());
                out.append(" command(s)");
                out
            },
            VendorWarning::BinNameRejected { key, name } => {
                let mut out = key.clone();
                out.append(": dropping bin `");
                out.append(name.as_str());
                out.append("` — the name is not URL-safe");
                out
            },
            VendorWarning::BinPathEscapes { key, name, path } => {
                let mut out = key.clone();
                out.append(": dropping bin `");
                out.append(name.as_str());
                out.append("` — its path `");
                out.append(path.as_str());
                out.append("` is empty or escapes the package");
                out
            },
            VendorWarning::BinNameCollision { key, name } => {
                let mut out = key.clone();
                out.append(": two bins named `");
                out.append(name.as_str());
                out.append("`; keeping the last");
                out
            },
            VendorWarning::NonStringBinValue { key, name } => {
                let mut out = key.clone();
                out.append(": dropping bin `");
                out.append(name.as_str());
                out.append("` — its value is not a string");
                out
            },
        }
    }
}

impl InitWarning {
    /// The message in words.
    pub open spec fn text(&self) -> Seq<char> {
        match self {
            InitWarning::CellRootGuess { init_root, lockfile_dir } => {
                "initializing in "@ + init_root@ + ", but pnpm-lock.yaml is in "@ + lockfile_dir@ + "; assuming the Buck cell root is the latter for the `root//` load label in toolchains/BUCK"@
            },
            InitWarning::ThirdPartyFileExists { path } => {
                path@ + " exists; leaving it alone"@
            },
            InitWarning::ExistingToolchain { path, name, recorded } => {
                path@ + " already declares a node toolchain (`:"@ + name@ + "`); leaving it alone"@
            },
            InitWarning::ToolchainNameUnparsed { path, name } => {
                "could not read the target name out of the `system_node_toolchain(...)` call in "@ + path@ + "; assumed `"@ + name@ + "`"@
            },
            InitWarning::UnbalancedMarkers { path } => {
                path@ + " has unbalanced pudu markers; not modifying it"@
            },
        }
    }

    /// The message in words.
    pub fn message(&self) -> (r: String)
        ensures
            r@ == self.text(),
    {
        match self {
            InitWarning::CellRootGuess { init_root, lockfile_dir } => {
                let mut out = "initializing in ".to_owned();
                out.append(init_root.as_str());
                out.append(", but pnpm-lock.yaml is in ");
                out.append(lockfile_dir.as_str());
                out.append("; assuming the Buck cell root is the latter for the `root//` load label in toolchains/BUCK");
                out
            },
            InitWarning::ThirdPartyFileExists { path } => {
                let mut out = path.clone();
                out.append(" exists; leaving it alone");
                out
            },
            InitWarning::ExistingToolchain { path, name, recorded } => {
                let mut out = path.clone();
                out.append(" already declares a node toolchain (`:");
                out.append(name.as_str());
                out.append("`); leaving it alone");
                out
            },
            InitWarning::ToolchainNameUnparsed { path, name } => {
                let mut out = "could not read the target name out of the `system_node_toolchain(...)` call in ".to_owned();
                out.append(path.as_str());
                out.append("; assumed `");
                out.append(name.as_str());
                out.append("`");
                out
            },
            InitWarning::UnbalancedMarkers { path } => {
                let mut out = path.clone();
                out.append(" has unbalanced pudu markers; not modifying it");
                out
            },
        }
    }
}

impl CliError {
    /// The message in words.
    pub open spec fn text(&self) -> Seq<char> {
        match self {
            CliError::Unimplemented { verb, stage } => {
                "pudu "@ + verb@ + " is not implemented yet (planned for "@ + stage@ + ")"@
            },
            CliError::ConfigExists { path } => {
                path@ + " already exists; pass --force to overwrite"@
            },
            CliError::ConfigUnreadable { path, source } => {
                "cannot read "@ + path@
            },
            CliError::ConfigInvalid { count } => {
                decimal_text(*count as nat) + " error(s) in pudu.toml"@
            },
            CliError::BadDirectory { path, source } => {
                "cannot change directory to "@ + path@
            },
        }
    }

    /// The message in words.
    pub fn message(&self) -> (r: String)
        ensures
            r@ == self.text(),
    {
        match self {
            CliError::Unimplemented { verb, stage } => {
                let mut out = "pudu ".to_owned();
                out.append(verb.as_str());
                out.append(" is not implemented yet (planned for ");
                out.append(stage.as_str());
                out.append(")");
                out
            },
            CliError::ConfigExists { path } => {
                let mut out = path.clone();
                out.append(" already exists; pass --force to overwrite");
                out
            },
            CliError::ConfigUnreadable { path, source } => {
                let mut out = "cannot read ".to_owned();
                out.append(path.as_str());
                out
            },
            CliError::ConfigInvalid { count } => {
                let mut out = decimal(*count as u64);
                out.append(" error(s) in pudu.toml");
                out
            },
            CliError::BadDirectory { path, source } => {
                let mut out = "cannot change directory to ".to_owned();
                out.append(path.as_str());
                out
            },
        }
    }
}

/// Help text for an HTTP failure. 401 and 403 get their own wording because a
/// private registry is the most likely first encounter with either.
pub open spec fn http_help_text(status: u16) -> Seq<char> {
    if status == 401 || status == 403 {
        "pudu sends no credentials — authentication is not implemented yet. A registry requiring a token cannot be vendored from."@
    } else if status == 404 {
        "the package may have been unpublished, or the `[registry]` host may be wrong for it"@
    } else {
        "the registry rejected the request; pudu already retried transient failures"@
    }
}

/// Help text for an HTTP failure.
pub fn http_help(status: u16) -> (r: String)
    ensures
        r@ == http_help_text(status),
{
    if status == 401 || status == 403 {
        "pudu sends no credentials — authentication is not implemented yet. A registry requiring a token cannot be vendored from.".to_owned()
    } else if status == 404 {
        "the package may have been unpublished, or the `[registry]` host may be wrong for it".to_owned()
    } else {
        "the registry rejected the request; pudu already retried transient failures".to_owned()
    }
}

/// A message followed by the first `n` of its causes.
pub open spec fn chain_text(message: Seq<char>, causes: Seq<Seq<char>>, n: int) -> Seq<char>
    decreases n,
{
    if n <= 0 {
        message
    } else {
        chain_text(message, causes, n - 1) + ": "@ + causes[n - 1]
    }
}

/// An error's own message plus its cause chain, joined with `: `.
pub fn full_message(message: &str, causes: &Vec<String>) -> (r: String)
    ensures
        r@ == chain_text(message@, causes.deep_view(), causes.deep_view().len() as int),
{
    let ghost cs = causes.deep_view();
    let mut out = message.to_owned();
    let mut i: usize = 0;
    while i < causes.len()
        invariant
            cs == causes.deep_view(),
            i <= cs.len(),
            out@ == chain_text(message@, cs, i as int),
        decreases cs.len() - i,
    {
        out.append(": ");
        out.append(causes[i].as_str());
        i += 1;
        assert(cs[i - 1] == causes@[i - 1]@);
    }
    out
}

impl ConfigError {
    /// What lies behind this error, outermost first.
    pub open spec fn cause_texts(&self) -> Seq<Seq<char>> {
        match self {
            ConfigError::Parse { path, source } => seq![source@],
            ConfigError::LockfileUnreadable { path, source } => seq![source@],
            ConfigError::ThirdPartyDirNotWritable { path, source } => seq![source@],
            _ => Seq::empty(),
        }
    }

    /// What lies behind this error, outermost first.
    pub fn causes(&self) -> (r: Vec<String>)
        ensures
            r.deep_view() == self.cause_texts(),
    {
        let mut out: Vec<String> = Vec::new();
        match self {
            ConfigError::Parse { path, source } => {
                out.push(source.clone());
            },
            ConfigError::LockfileUnreadable { path, source } => {
                out.push(source.clone());
            },
            ConfigError::ThirdPartyDirNotWritable { path, source } => {
                out.push(source.clone());
            },
            _ => {},
        }
        assert(out.deep_view() =~= self.cause_texts());
        out
    }
}

// --- Exit codes -------------------------------------------------------------------------

/// Process exit codes. Scripts branch on these.
#[derive(Debug, Clone, Copy, PartialEq, Eq, Structural)]
pub enum ExitCode {
    Success,
    /// Internal or unexpected error: an I/O failure, anything unclassified.
    Internal,
    /// Usage error.
    Usage,
    /// A file that is read is missing, malformed or invalid.
    InputInvalid,
    /// The verb is registered but not implemented yet.
    Unimplemented,
    /// The package table is out of date.
    Stale,
}

impl ExitCode {
    /// The number of the code.
    pub open spec fn number(self) -> i32 {
        match self {
            ExitCode::Success => 0,
            ExitCode::Internal => 1,
            ExitCode::Usage => 2,
            ExitCode::InputInvalid => 3,
            ExitCode::Unimplemented => 4,
            ExitCode::Stale => 5,
        }
    }

    pub fn as_i32(self) -> (r: i32)
        ensures
            r == self.number(),
    {
        match self {
            ExitCode::Success => 0,
            ExitCode::Internal => 1,
            ExitCode::Usage => 2,
            ExitCode::InputInvalid => 3,
            ExitCode::Unimplemented => 4,
            ExitCode::Stale => 5,
        }
    }
}

impl CliError {
    /// Whether the command already printed the detail, so that it must not be
    /// rendered a second time.
    pub fn already_reported(&self) -> (r: bool)
        ensures
            r == (self is ConfigInvalid),
    {
        match self {
            CliError::ConfigInvalid { count } => true,
            _ => false,
        }
    }

    /// The code that this failure maps to.
    pub open spec fn code(&self) -> ExitCode {
        match self {
            CliError::Unimplemented { verb, stage } => ExitCode::Unimplemented,
            CliError::ConfigExists { path } => ExitCode::Usage,
            CliError::BadDirectory { path, source } => ExitCode::Usage,
            CliError::ConfigUnreadable { path, source } => ExitCode::InputInvalid,
            CliError::ConfigInvalid { count } => ExitCode::InputInvalid,
        }
    }

    pub fn exit_code(&self) -> (r: ExitCode)
        ensures
            r == self.code(),
    {
        match self {
            CliError::Unimplemented { verb, stage } => ExitCode::Unimplemented,
            CliError::ConfigExists { path } => ExitCode::Usage,
            CliError::BadDirectory { path, source } => ExitCode::Usage,
            CliError::ConfigUnreadable { path, source } => ExitCode::InputInvalid,
            CliError::ConfigInvalid { count } => ExitCode::InputInvalid,
        }
    }
}

impl VendorError {
    /// The code that this failure maps to: a registry that is down or refusing, and
    /// either half of the cache being unusable, are properties of the environment
    /// rather than of the input.
    pub open spec fn code(&self) -> ExitCode {
        if self is Stale {
            ExitCode::Stale
        } else if self is HttpStatus || self is Transport || self is CacheWriteFailed
            || self is CacheUnavailable {
            ExitCode::Internal
        } else {
            ExitCode::InputInvalid
        }
    }

    pub fn exit_code(&self) -> (r: ExitCode)
        ensures
            r == self.code(),
    {
        match self {
            VendorError::Stale { differences } => ExitCode::Stale,
            VendorError::HttpStatus { key, url, status } => ExitCode::Internal,
            VendorError::Transport { key, url, source } => ExitCode::Internal,
            VendorError::CacheWriteFailed { path, source } => ExitCode::Internal,
            VendorError::CacheUnavailable => ExitCode::Internal,
            _ => ExitCode::InputInvalid,
        }
    }
}

impl BuckError {
    /// The code that this failure maps to: files that are out of date are told apart
    /// from input that cannot be rendered.
    pub open spec fn code(&self) -> ExitCode {
        if self is Stale {
            ExitCode::Stale
        } else {
            ExitCode::InputInvalid
        }
    }

    pub fn exit_code(&self) -> (r: ExitCode)
        ensures
            r == self.code(),
    {
        match self {
            BuckError::Stale { files } => ExitCode::Stale,
            _ => ExitCode::InputInvalid,
        }
    }
}

/// Any failure of a command.
#[derive(Debug, PartialEq)]
pub enum Failure {
    Cli(CliError),
    Config(ConfigError),
    Derive(DeriveError),
    Lock(LockError),
    Vendor(VendorError),
    Buck(BuckError),
    /// Anything that is not classified: its message.
    Other(String),
}

/// The code that a failure maps to: what is not classified is no problem of the
/// input and must not be reported as one.
pub open spec fn failure_code(e: Failure) -> ExitCode {
    match e {
        Failure::Cli(e) => e.code(),
        Failure::Config(_) => ExitCode::InputInvalid,
        Failure::Derive(_) => ExitCode::InputInvalid,
        Failure::Lock(_) => ExitCode::InputInvalid,
        Failure::Vendor(e) => e.code(),
        Failure::Buck(e) => e.code(),
        Failure::Other(_) => ExitCode::Internal,
    }
}

/// The exit code a failure maps to.
pub fn exit_code(e: &Failure) -> (r: ExitCode)
    ensures
        r == failure_code(*e),
{
    match e {
        Failure::Cli(e) => e.exit_code(),
        Failure::Config(_) => ExitCode::InputInvalid,
        Failure::Derive(_) => ExitCode::InputInvalid,
        Failure::Lock(_) => ExitCode::InputInvalid,
        Failure::Vendor(e) => e.exit_code(),
        Failure::Buck(e) => e.exit_code(),
        Failure::Other(_) => ExitCode::Internal,
    }
}

/// A failure never exits as success.
pub proof fn failures_exit_nonzero(e: Failure)
    ensures
        failure_code(e).number() != 0,
{
}

/// Each code has a number of its own.
pub proof fn codes_have_distinct_numbers(a: ExitCode, b: ExitCode)
    requires
        a.number() == b.number(),
    ensures
        a == b,
{
}

/// The number that a failure exits with says what to do about it: run the command that
/// brings the files up to date, look at the environment, mend the call, wait for the
/// command to be there, or else mend the input.
pub proof fn a_code_says_what_to_mend(e: Failure)
    ensures
        failure_code(e).number() == 5 <==> (e is Vendor && e->Vendor_0 is Stale) || (e is Buck
            && e->Buck_0 is Stale),
        failure_code(e).number() == 1 <==> e is Other || (e is Vendor && (e->Vendor_0 is HttpStatus
            || e->Vendor_0 is Transport || e->Vendor_0 is CacheWriteFailed
            || e->Vendor_0 is CacheUnavailable)),
        failure_code(e).number() == 2 <==> e is Cli && (e->Cli_0 is ConfigExists
            || e->Cli_0 is BadDirectory),
        failure_code(e).number() == 4 <==> e is Cli && e->Cli_0 is Unimplemented,
        failure_code(e).number() > 0,
        failure_code(e).number() <= 5,
{
}

/// A list that is not cut short names every item; one that is names the first of them
/// and says how many more there are.
pub proof fn a_capped_list_adds_up(items: Seq<Seq<char>>, cap: int, i: int)
    requires
        0 <= i < items.len(),
        i < cap,
    ensures
        stands_in(capped_text(items, cap), items[i]),
        items.len() > cap ==> stands_in(
            capped_text(items, cap),
            "and "@ + decimal_text((items.len() - cap) as nat) + " more"@,
        ),
{
    let none = Seq::<char>::empty();
    if items.len() <= cap {
        joined_pieces_stand(items, ", "@, i);
    } else {
        reveal_strlit(", …and ");
        reveal_strlit("and ");
        let shown = items.take(cap);
        let front = join_with(shown, ", "@);
        let count = decimal_text((items.len() - cap) as nat);
        let all = capped_text(items, cap);
        joined_pieces_stand(shown, ", "@, i);
        assert(all =~= none + front + (", …and "@ + count + " more"@));
        stands_inside(none, front, ", …and "@ + count + " more"@, items[i]);
        let tail = "and "@ + count + " more"@;
        assert(", …and "@ =~= ", …"@ + "and "@) by {
            reveal_strlit(", …");
        }
        assert(all =~= (front + ", …"@) + tail + none);
        stands_between(front + ", …"@, tail, none);
    }
}

/// A message is followed by its causes, outermost first, each behind a colon.
pub proof fn a_chain_goes_on_with_its_causes(message: Seq<char>, causes: Seq<Seq<char>>, n: int)
    requires
        0 <= n < causes.len(),
    ensures
        chain_text(message, causes, 0) == message,
        chain_text(message, causes, n).is_prefix_of(chain_text(message, causes, n + 1)),
        chain_text(message, causes, n + 1).skip(chain_text(message, causes, n).len() as int)
            == seq![':', ' '] + causes[n],
{
    reveal_strlit(": ");
    let before = chain_text(message, causes, n);
    let after = chain_text(message, causes, n + 1);
    assert(": "@ =~= seq![':', ' ']);
    assert(after.take(before.len() as int) =~= before);
    assert(after.skip(before.len() as int) =~= seq![':', ' '] + causes[n]);
}

broadcast proof fn stands_to_the_left(a: Seq<char>, b: Seq<char>, p: Seq<char>)
    requires
        stands_in(a, p),
    ensures
        #[trigger] stands_in(a + b, p),
{
    let none = Seq::<char>::empty();
    assert(a + b =~= none + a + b);
    stands_inside(none, a, b, p);
}

broadcast proof fn stands_to_the_right(a: Seq<char>, p: Seq<char>)
    ensures
        #[trigger] stands_in(a + p, p),
{
    let none = Seq::<char>::empty();
    assert(a + p =~= a + p + none);
    stands_between(a, p, none);
}

broadcast proof fn stands_by_itself(p: Seq<char>)
    ensures
        #[trigger] stands_in(p, p),
{
    let none = Seq::<char>::empty();
    assert(p =~= none + p + none);
    stands_between(none, p, none);
}

broadcast group group_stands {
    stands_to_the_left,
    stands_to_the_right,
    stands_by_itself,
}

/// A failure of the lockfile names what it is about: the keys, links and targets at fault.
pub proof fn lock_errors_name_their_subject(e: LockError)
    ensures
        match e {
            LockError::UnsupportedVersion { found } => stands_in(e.text(), absent_or(found.deep_view())),
            LockError::Yaml { path, source } => stands_in(e.text(), path@),
            LockError::KeyParse { key, offset, reason } => {
                &&& stands_in(e.text(), key@)
                &&& stands_in(e.text(), decimal_text(offset as nat))
                &&& stands_in(e.text(), reason@)
            },
            LockError::MissingPackageMeta { snapshot, base } => {
                &&& stands_in(e.text(), snapshot@)
                &&& stands_in(e.text(), base@)
            },
            LockError::UnresolvedEdge { from, link_name, resolved } => {
                &&& stands_in(e.text(), from@)
                &&& stands_in(e.text(), link_name@)
                &&& stands_in(e.text(), resolved@)
            },
            LockError::TargetNameCollision { a, b, target } => {
                &&& stands_in(e.text(), a@)
                &&& stands_in(e.text(), b@)
                &&& stands_in(e.text(), target@)
            },
            LockError::DuplicateLinkName { snapshot, link_name } => {
                &&& stands_in(e.text(), snapshot@)
                &&& stands_in(e.text(), link_name@)
            },
            _ => true,
        },
{
    broadcast use group_stands;
}

/// A warning about the lockfile names the key, and passes on what its author says.
pub proof fn lock_warnings_name_their_subject(e: LockWarning)
    ensures
        match e {
            LockWarning::UnknownTopLevelKey { key } => stands_in(e.text(), key@),
            LockWarning::DeprecatedPackage { key, message } => {
                &&& stands_in(e.text(), key@)
                &&& stands_in(e.text(), message@)
            },
        },
{
    broadcast use group_stands;
}

/// A warning about platforms names the packages and the platforms.
pub proof fn platform_warnings_name_their_subject(e: PlatformWarning)
    ensures
        match e {
            PlatformWarning::RequiredDependencyExcluded { dependent, target, platform } => {
                &&& stands_in(e.text(), dependent@)
                &&& stands_in(e.text(), target@)
                &&& stands_in(e.text(), platform@)
            },
            PlatformWarning::ExcludedEverywhere { packages, platforms } => {
                &&& stands_in(e.text(), decimal_text(packages@.len()))
                &&& stands_in(e.text(), join_with(platforms.deep_view(), ", "@))
                &&& stands_in(e.text(), capped_text(packages.deep_view(), 10))
            },
        },
{
    broadcast use group_stands;
}

/// A failure to render names the packages, importers and files at fault.
pub proof fn buck_errors_name_their_subject(e: BuckError)
    ensures
        match e {
            BuckError::UnrepresentableBinName { package, name } => {
                &&& stands_in(e.text(), package@)
                &&& stands_in(e.text(), name@)
            },
            BuckError::ImporterNameCollision { target, first, second } => {
                &&& stands_in(e.text(), first@)
                &&& stands_in(e.text(), second@)
                &&& stands_in(e.text(), target@)
            },
            BuckError::UnusableThirdPartyDir { path } => stands_in(e.text(), path@),
            BuckError::Stale { files } => {
                &&& stands_in(e.text(), decimal_text(files@.len()))
                &&& stands_in(e.text(), join_with(files.deep_view(), ", "@))
            },
        },
{
    broadcast use group_stands;
}

/// A warning about a workspace file names the word that was not understood.
pub proof fn derive_warnings_name_their_subject(e: DeriveWarning)
    ensures
        match e {
            DeriveWarning::UnknownKey { key } => stands_in(e.text(), key@),
            DeriveWarning::UnknownOs { value } => stands_in(e.text(), value@),
            DeriveWarning::UnknownCpu { value } => stands_in(e.text(), value@),
            DeriveWarning::UnknownLibc { value } => stands_in(e.text(), value@),
            DeriveWarning::NonStringAxisEntry { key } => stands_in(e.text(), key@),
            _ => true,
        },
{
    broadcast use group_stands;
}

/// A failure to derive platforms names the axis at fault.
pub proof fn derive_errors_name_their_subject(e: DeriveError)
    ensures
        match e {
            DeriveError::WorkspaceParse { path, source } => stands_in(e.text(), path@),
            DeriveError::AxisNotASequence { key, example } => {
                &&& stands_in(e.text(), key@)
                &&& stands_in(e.text(), example@)
            },
            DeriveError::NoUsablePlatforms { axis, warnings } => stands_in(e.text(), axis@),
        },
{
    broadcast use group_stands;
}

/// A failure of the configuration names the value at fault, and where it stands.
pub proof fn config_errors_name_their_subject(e: ConfigError)
    ensures
        match e {
            ConfigError::Parse { path, source } => stands_in(e.text(), path@),
            ConfigError::LibcOnNonLinux { platform } => stands_in(e.text(), platform@),
            ConfigError::WindowsUnsupported { platform } => stands_in(e.text(), platform@),
            ConfigError::DuplicatePlatform { first, second } => {
                &&& stands_in(e.text(), first@)
                &&& stands_in(e.text(), second@)
            },
            ConfigError::BadConstraintLabel { platform, label } => {
                &&& stands_in(e.text(), platform@)
                &&& stands_in(e.text(), label@)
            },
            ConfigError::BadRegistryScope { scope } => stands_in(e.text(), scope@),
            ConfigError::BadFixupRegistry { value } => stands_in(e.text(), value@),
            ConfigError::BadRegistryUrl { key, url } => {
                &&& stands_in(e.text(), key@)
                &&& stands_in(e.text(), url@)
            },
            ConfigError::BadFixupRegistryPath { value } => stands_in(e.text(), value@),
            ConfigError::BadPackageName { name } => stands_in(e.text(), name@),
            ConfigError::BadToolchainLabel { label } => stands_in(e.text(), label@),
            ConfigError::LockfileNotFound { path } => stands_in(e.text(), path@),
            ConfigError::LockfileUnreadable { path, source } => stands_in(e.text(), path@),
            ConfigError::ThirdPartyDirNotWritable { path, source } => stands_in(e.text(), path@),
            _ => true,
        },
{
    broadcast use group_stands;
}

/// A warning about the configuration names the platform.
pub proof fn config_warnings_name_their_subject(e: ConfigWarning)
    ensures
        match e {
            ConfigWarning::SinglePlatform { name } => stands_in(e.text(), name@),
            _ => true,
        },
{
    broadcast use group_stands;
}

/// A failure to vendor names the package, its address and what was found.
pub proof fn vendor_errors_name_their_subject(e: VendorError)
    ensures
        match e {
            VendorError::Stale { differences } => stands_in(e.text(), decimal_text(differences@.len())),
            VendorError::UnsupportedResolution { packages } => {
                &&& stands_in(e.text(), decimal_text(packages@.len()))
                &&& stands_in(e.text(), capped_text(packages.deep_view(), 10))
            },
            VendorError::IntegrityMismatch { key, url, expected, actual } => {
                &&& stands_in(e.text(), key@)
                &&& stands_in(e.text(), url@)
                &&& stands_in(e.text(), expected@)
                &&& stands_in(e.text(), actual@)
                &&& stands_in(e.text(), "expected: "@ + expected@)
                &&& stands_in(e.text(), "actual:   "@ + actual@)
            },
            VendorError::MalformedTarball { key, reason } => {
                &&& stands_in(e.text(), key@)
                &&& stands_in(e.text(), reason@)
            },
            VendorError::MissingPackageJson { key } => stands_in(e.text(), key@),
            VendorError::MalformedIntegrity { key, integrity } => {
                &&& stands_in(e.text(), key@)
                &&& stands_in(e.text(), integrity@)
            },
            VendorError::BadDerivedUrl { key, name, url } => {
                &&& stands_in(e.text(), key@)
                &&& stands_in(e.text(), url@)
            },
            VendorError::TableMalformed { path, reason } => {
                &&& stands_in(e.text(), path@)
                &&& stands_in(e.text(), reason@)
            },
            VendorError::NetworkDisabled { key, url } => {
                &&& stands_in(e.text(), key@)
                &&& stands_in(e.text(), url@)
            },
            VendorError::HttpStatus { key, url, status } => {
                &&& stands_in(e.text(), key@)
                &&& stands_in(e.text(), url@)
                &&& stands_in(e.text(), decimal_text(status as nat))
            },
            VendorError::Transport { key, url, source } => {
                &&& stands_in(e.text(), key@)
                &&& stands_in(e.text(), url@)
            },
            VendorError::CacheWriteFailed { path, source } => stands_in(e.text(), path@),
            _ => true,
        },
{
    broadcast use group_stands;

    if let VendorError::IntegrityMismatch { key, url, expected, actual } = e {
        reveal_strlit("\n  expected: ");
        reveal_strlit("expected: ");
        reveal_strlit("\n  actual:   ");
        reveal_strlit("actual:   ");
        let head = key@
            + ": tarball does not match the integrity recorded in pnpm-lock.yaml\n  url:      "@
            + url@ + seq!['\n', ' ', ' '];
        let tail = "\n  actual:   "@ + actual@;
        assert(e.text() =~= head + ("expected: "@ + expected@) + tail);
        stands_between(head, "expected: "@ + expected@, tail);
        let more = head + "expected: "@ + expected@ + seq!['\n', ' ', ' '];
        assert(e.text() =~= more + ("actual:   "@ + actual@));
    }
}

/// A warning about a package names the package and the command.
pub proof fn vendor_warnings_name_their_subject(e: VendorWarning)
    ensures
        match e {
            VendorWarning::HasBinDisagreement { key, lockfile, found } => {
                &&& stands_in(e.text(), key@)
                &&& stands_in(e.text(), flag_text(lockfile))
                &&& stands_in(e.text(), decimal_text(found as nat))
            },
            VendorWarning::BinNameRejected { key, name } => {
                &&& stands_in(e.text(), key@)
                &&& stands_in(e.text(), name@)
            },
            VendorWarning::BinPathEscapes { key, name, path } => {
                &&& stands_in(e.text(), key@)
                &&& stands_in(e.text(), name@)
                &&& stands_in(e.text(), path@)
            },
            VendorWarning::BinNameCollision { key, name } => {
                &&& stands_in(e.text(), key@)
                &&& stands_in(e.text(), name@)
            },
            VendorWarning::NonStringBinValue { key, name } => {
                &&& stands_in(e.text(), key@)
                &&& stands_in(e.text(), name@)
            },
        },
{
    broadcast use group_stands;
}

/// A warning of a scaffold names the file.
pub proof fn init_warnings_name_their_subject(e: InitWarning)
    ensures
        match e {
            InitWarning::CellRootGuess { init_root, lockfile_dir } => {
                &&& stands_in(e.text(), init_root@)
                &&& stands_in(e.text(), lockfile_dir@)
            },
            InitWarning::ThirdPartyFileExists { path } => stands_in(e.text(), path@),
            InitWarning::ExistingToolchain { path, name, recorded } => {
                &&& stands_in(e.text(), path@)
                &&& stands_in(e.text(), name@)
            },
            InitWarning::ToolchainNameUnparsed { path, name } => {
                &&& stands_in(e.text(), path@)
                &&& stands_in(e.text(), name@)
            },
            InitWarning::UnbalancedMarkers { path } => stands_in(e.text(), path@),
        },
{
    broadcast use group_stands;
}

/// A failure of a command names the file or the command.
pub proof fn cli_errors_name_their_subject(e: CliError)
    ensures
        match e {
            CliError::Unimplemented { verb, stage } => {
                &&& stands_in(e.text(), verb@)
                &&& stands_in(e.text(), stage@)
            },
            CliError::ConfigExists { path } => stands_in(e.text(), path@),
            CliError::ConfigUnreadable { path, source } => stands_in(e.text(), path@),
            CliError::ConfigInvalid { count } => stands_in(e.text(), decimal_text(count as nat)),
            CliError::BadDirectory { path, source } => stands_in(e.text(), path@),
        },
{
    broadcast use group_stands;
}

/// A registry that asks for credentials and one that does not know the package are each
/// told apart from any other failure.
pub proof fn help_goes_by_the_status(status: u16)
    ensures
        http_help_text(status) == http_help_text(401) <==> status == 401 || status == 403,
        http_help_text(status) == http_help_text(404) <==> status == 404,
{
    reveal_strlit(
        "pudu sends no credentials — authentication is not implemented yet. A registry requiring a token cannot be vendored from.",
    );
    reveal_strlit(
        "the package may have been unpublished, or the `[registry]` host may be wrong for it",
    );
    reveal_strlit("the registry rejected the request; pudu already retried transient failures");
    assert(http_help_text(401)[0] == 'p');
    assert(http_help_text(404)[4] == 'p');
    assert(http_help_text(500)[4] == 'r');
    assert(http_help_text(404)[0] == 't' && http_help_text(500)[0] == 't');
}

} // verus!
