//! Typed `pnpm-lock.yaml` v9 structures.

use vstd::prelude::*;

use crate::dict::{Dict, Duplicate};

verus! {

/// A table keyed by text, in key order.
pub type Table<T> = Seq<(Seq<char>, T)>;

/// A dependency as an importer declares it.
#[derive(Debug, PartialEq)]
pub struct ImporterDep {
    /// The range as written: `^4.19.2`, `workspace:*`, `catalog:`.
    pub specifier: String,
    /// Encoded exactly like a snapshot edge value.
    pub version: String,
}

/// The mathematical value of an [`ImporterDep`].
pub struct ImporterDepModel {
    pub specifier: Seq<char>,
    pub version: Seq<char>,
}

impl DeepView for ImporterDep {
    type V = ImporterDepModel;

    open spec fn deep_view(&self) -> ImporterDepModel {
        ImporterDepModel {
            specifier: self.specifier.deep_view(),
            version: self.version.deep_view(),
        }
    }
}

impl Duplicate for ImporterDep {
    fn duplicate(&self) -> (r: Self) {
        ImporterDep {
            specifier: self.specifier.duplicate(),
            version: self.version.duplicate(),
        }
    }
}

/// What a package says of one of its peers.
#[derive(Debug, PartialEq)]
pub struct PeerMeta {
    pub optional: bool,
}

/// The mathematical value of a [`PeerMeta`].
pub struct PeerMetaModel {
    pub optional: bool,
}

impl DeepView for PeerMeta {
    type V = PeerMetaModel;

    open spec fn deep_view(&self) -> PeerMetaModel {
        PeerMetaModel {
            optional: self.optional.deep_view(),
        }
    }
}

impl Duplicate for PeerMeta {
    fn duplicate(&self) -> (r: Self) {
        PeerMeta {
            optional: self.optional.duplicate(),
        }
    }
}

/// One workspace member and what it depends on.
#[derive(Debug, PartialEq)]
pub struct Importer {
    pub dependencies: Dict<ImporterDep>,
    pub dev_dependencies: Dict<ImporterDep>,
    pub optional_dependencies: Dict<ImporterDep>,
}

/// The mathematical value of an [`Importer`].
pub struct ImporterModel {
    pub dependencies: Table<ImporterDepModel>,
    pub dev_dependencies: Table<ImporterDepModel>,
    pub optional_dependencies: Table<ImporterDepModel>,
}

impl DeepView for Importer {
    type V = ImporterModel;

    open spec fn deep_view(&self) -> ImporterModel {
        ImporterModel {
            dependencies: self.dependencies.deep_view(),
            dev_dependencies: self.dev_dependencies.deep_view(),
            optional_dependencies: self.optional_dependencies.deep_view(),
        }
    }
}

impl Duplicate for Importer {
    fn duplicate(&self) -> (r: Self) {
        Importer {
            dependencies: self.dependencies.duplicate(),
            dev_dependencies: self.dev_dependencies.duplicate(),
            optional_dependencies: self.optional_dependencies.duplicate(),
        }
    }
}

/// How a package's bytes are obtained.
#[derive(Debug, PartialEq)]
pub enum Resolution {
    Integrity { integrity: String },
    Tarball { tarball: String, integrity: Option<String> },
    Git { repo: String, commit: String },
    Directory { directory: String, kind: String },
}

/// The mathematical value of a [`Resolution`].
pub enum ResolutionModel {
    Integrity { integrity: Seq<char> },
    Tarball { tarball: Seq<char>, integrity: Option<Seq<char>> },
    Git { repo: Seq<char>, commit: Seq<char> },
    Directory { directory: Seq<char>, kind: Seq<char> },
}

impl DeepView for Resolution {
    type V = ResolutionModel;

    open spec fn deep_view(&self) -> ResolutionModel {
        match self {
            Resolution::Integrity { integrity } => ResolutionModel::Integrity {
                integrity: integrity@,
            },
            Resolution::Tarball { tarball, integrity } => ResolutionModel::Tarball {
                tarball: tarball@,
                integrity: integrity.deep_view(),
            },
            Resolution::Git { repo, commit } => ResolutionModel::Git {
                repo: repo@,
                commit: commit@,
            },
            Resolution::Directory { directory, kind } => ResolutionModel::Directory {
                directory: directory@,
                kind: kind@,
            },
        }
    }
}

impl Duplicate for Resolution {
    fn duplicate(&self) -> (r: Self) {
        match self {
            Resolution::Integrity { integrity } => Resolution::Integrity {
                integrity: integrity.clone(),
            },
            Resolution::Tarball { tarball, integrity } => Resolution::Tarball {
                tarball: tarball.clone(),
                integrity: integrity.duplicate(),
            },
            Resolution::Git { repo, commit } => Resolution::Git {
                repo: repo.clone(),
                commit: commit.clone(),
            },
            Resolution::Directory { directory, kind } => Resolution::Directory {
                directory: directory.clone(),
                kind: kind.clone(),
            },
        }
    }
}

/// Version-level metadata, from the `packages:` table, whose keys are never
/// peer-suffixed.
#[derive(Debug, PartialEq)]
pub struct PackageMeta {
    pub resolution: Resolution,
    pub engines: Dict<String>,
    /// Raw npm strings, negation (`!win32`) intact: an unknown token matches no
    /// configured platform.
    pub os: Option<Vec<String>>,
    pub cpu: Option<Vec<String>>,
    pub libc: Option<Vec<String>>,
    /// A bare flag, used only to cross-check what a tarball contains.
    pub has_bin: bool,
    pub deprecated: Option<String>,
    pub peer_dependencies: Dict<String>,
    pub peer_dependencies_meta: Dict<PeerMeta>,
    /// Kept, never acted on: pnpm already omits bundled names from the snapshot
    /// graph.
    pub bundled_dependencies: Vec<String>,
}

/// The mathematical value of a [`PackageMeta`].
pub struct PackageMetaModel {
    pub resolution: ResolutionModel,
    pub engines: Table<Seq<char>>,
    pub os: Option<Seq<Seq<char>>>,
    pub cpu: Option<Seq<Seq<char>>>,
    pub libc: Option<Seq<Seq<char>>>,
    pub has_bin: bool,
    pub deprecated: Option<Seq<char>>,
    pub peer_dependencies: Table<Seq<char>>,
    pub peer_dependencies_meta: Table<PeerMetaModel>,
    pub bundled_dependencies: Seq<Seq<char>>,
}

impl DeepView for PackageMeta {
    type V = PackageMetaModel;

    open spec fn deep_view(&self) -> PackageMetaModel {
        PackageMetaModel {
            resolution: self.resolution.deep_view(),
            engines: self.engines.deep_view(),
            os: self.os.deep_view(),
            cpu: self.cpu.deep_view(),
            libc: self.libc.deep_view(),
            has_bin: self.has_bin.deep_view(),
            deprecated: self.deprecated.deep_view(),
            peer_dependencies: self.peer_dependencies.deep_view(),
            peer_dependencies_meta: self.peer_dependencies_meta.deep_view(),
            bundled_dependencies: self.bundled_dependencies.deep_view(),
        }
    }
}

impl Duplicate for PackageMeta {
    fn duplicate(&self) -> (r: Self) {
        PackageMeta {
            resolution: self.resolution.duplicate(),
            engines: self.engines.duplicate(),
            os: self.os.duplicate(),
            cpu: self.cpu.duplicate(),
            libc: self.libc.duplicate(),
            has_bin: self.has_bin.duplicate(),
            deprecated: self.deprecated.duplicate(),
            peer_dependencies: self.peer_dependencies.duplicate(),
            peer_dependencies_meta: self.peer_dependencies_meta.duplicate(),
            bundled_dependencies: self.bundled_dependencies.duplicate(),
        }
    }
}

/// Resolved dependency edges, from the `snapshots:` table.
#[derive(Debug, PartialEq)]
pub struct SnapshotEntry {
    /// Link name to edge value. The value is not always a bare version.
    pub dependencies: Dict<String>,
    pub optional_dependencies: Dict<String>,
    pub optional: bool,
    pub transitive_peer_dependencies: Vec<String>,
}

/// The mathematical value of a [`SnapshotEntry`].
pub struct SnapshotEntryModel {
    pub dependencies: Table<Seq<char>>,
    pub optional_dependencies: Table<Seq<char>>,
    pub optional: bool,
    pub transitive_peer_dependencies: Seq<Seq<char>>,
}

impl DeepView for SnapshotEntry {
    type V = SnapshotEntryModel;

    open spec fn deep_view(&self) -> SnapshotEntryModel {
        SnapshotEntryModel {
            dependencies: self.dependencies.deep_view(),
            optional_dependencies: self.optional_dependencies.deep_view(),
            optional: self.optional.deep_view(),
            transitive_peer_dependencies: self.transitive_peer_dependencies.deep_view(),
        }
    }
}

impl Duplicate for SnapshotEntry {
    fn duplicate(&self) -> (r: Self) {
        SnapshotEntry {
            dependencies: self.dependencies.duplicate(),
            optional_dependencies: self.optional_dependencies.duplicate(),
            optional: self.optional.duplicate(),
            transitive_peer_dependencies: self.transitive_peer_dependencies.duplicate(),
        }
    }
}

/// The settings a lockfile was written with.
#[derive(Debug, PartialEq)]
pub struct Settings {
    /// pnpm's own default is true.
    pub auto_install_peers: bool,
    /// When true the lockfile omits `link:` dependencies, which is refused.
    pub exclude_links_from_lockfile: bool,
}

/// The mathematical value of a [`Settings`].
pub struct SettingsModel {
    pub auto_install_peers: bool,
    pub exclude_links_from_lockfile: bool,
}

impl DeepView for Settings {
    type V = SettingsModel;

    open spec fn deep_view(&self) -> SettingsModel {
        SettingsModel {
            auto_install_peers: self.auto_install_peers.deep_view(),
            exclude_links_from_lockfile: self.exclude_links_from_lockfile.deep_view(),
        }
    }
}

impl Duplicate for Settings {
    fn duplicate(&self) -> (r: Self) {
        Settings {
            auto_install_peers: self.auto_install_peers.duplicate(),
            exclude_links_from_lockfile: self.exclude_links_from_lockfile.duplicate(),
        }
    }
}

/// A parsed lockfile.
#[derive(Debug, PartialEq)]
pub struct Lockfile {
    pub lockfile_version: String,
    pub settings: Settings,
    pub importers: Dict<Importer>,
    pub packages: Dict<PackageMeta>,
    pub snapshots: Dict<SnapshotEntry>,
}

/// The mathematical value of a [`Lockfile`].
pub struct LockfileModel {
    pub lockfile_version: Seq<char>,
    pub settings: SettingsModel,
    pub importers: Table<ImporterModel>,
    pub packages: Table<PackageMetaModel>,
    pub snapshots: Table<SnapshotEntryModel>,
}

impl DeepView for Lockfile {
    type V = LockfileModel;

    open spec fn deep_view(&self) -> LockfileModel {
        LockfileModel {
            lockfile_version: self.lockfile_version.deep_view(),
            settings: self.settings.deep_view(),
            importers: self.importers.deep_view(),
            packages: self.packages.deep_view(),
            snapshots: self.snapshots.deep_view(),
        }
    }
}

impl Default for Settings {
    fn default() -> (r: Self)
        ensures
            r.auto_install_peers,
            !r.exclude_links_from_lockfile,
    {
        Settings { auto_install_peers: true, exclude_links_from_lockfile: false }
    }
}

} // verus!
