//! The rules: what leads from a project's files to paths in the home directory (`Lookup`), what in
//! the home directory names a project (`ReverseLink`), and what belongs to a whole ecosystem
//! (`Baseline`).

use vstd::prelude::*;

use crate::attribution::model::{AgentNames, EntryKind, EvidenceTier};
use crate::scan::{FindingKind, ScannerId};

verus! {

/// What changes how a row is read, as bits.
pub type Flags = u8;

/// Nothing.
pub const NONE: Flags = 0;

/// What the row claims is a clone of a package store.
pub const CLONE_OF_STORE: Flags = 1;

/// The case of letters in names does not matter.
pub const CASE_INSENSITIVE: Flags = 2;

/// A name that is a bare version counts as if a `v` stood before it.
pub const V_PREFIX: Flags = 4;

/// How much of a manifest is read.
pub const MANIFEST_CAP: usize = 262144;

/// How much of a lock file is read.
pub const LOCKFILE_CAP: usize = 8388608;

/// How a pin is brought into the form in which versions are named.
#[derive(Clone, Copy, Debug, PartialEq, Eq, Structural)]
pub enum Normalise {
    NodePin,
    Identity,
}

/// How the keys in a manifest are read.
#[derive(Clone, Copy, Debug, PartialEq, Eq, Structural)]
pub enum Parse {
    PackageLock,
    YarnBerry,
    BunLock,
    CargoRegistry,
    CargoGit,
    CargoConfig,
    CargoScripts,
    CargoShell,
    GoSum,
    PackageResolved,
    BrewFormulae,
    BrewCasks,
}

/// How paths come from a key where no template can say it.
#[derive(Clone, Copy, Debug, PartialEq, Eq, Structural)]
pub enum Derive {
    NpmCacache,
    CargoTargetDir,
    GoModuleCache,
    ProjectNameCache,
    JetbrainsDirs,
    ClaudeCliCache,
}

/// How a path is labelled where no template can say it.
#[derive(Clone, Copy, Debug)]
pub enum LabelFn {
    SimulatorDevice,
    /// The agent's name before the path's own.
    ClaudeState(&'static str),
}

/// How an entry names a project where no other way can say it.
#[derive(Clone, Copy, Debug, PartialEq, Eq, Structural)]
pub enum Extractor {
    ContainerBundleId,
}

/// How a value is read out of a file.
#[derive(Clone, Copy, Debug, PartialEq, Eq, Structural)]
pub enum FileValue {
    DefaultToolchain,
}

/// Where a pin may stand.
#[derive(Debug)]
pub enum PinSource {
    /// The first line of a file that is no comment and no header.
    Line(&'static str),
    /// The value of a key in a file.
    TomlKey(&'static str, &'static str),
    /// What a path of keys leads to in a JSON file.
    JsonPath(&'static str, Vec<&'static str>),
}

/// Where a pin may stand, as a value.
#[verifier::ext_equal]
pub enum PinSourceView {
    Line(&'static str),
    TomlKey(&'static str, &'static str),
    JsonPath(&'static str, Seq<&'static str>),
}

impl View for PinSource {
    type V = PinSourceView;

    open spec fn view(&self) -> PinSourceView {
        match self {
            PinSource::Line(f) => PinSourceView::Line(*f),
            PinSource::TomlKey(f, k) => PinSourceView::TomlKey(*f, *k),
            PinSource::JsonPath(f, p) => PinSourceView::JsonPath(*f, p@),
        }
    }
}

impl DeepView for PinSource {
    type V = PinSourceView;

    open spec fn deep_view(&self) -> PinSourceView {
        self@
    }
}

/// Where manifests are looked for.
#[derive(Debug)]
pub enum Find {
    /// A file in the project's root, and how much of it is read.
    Root(&'static str, usize),
    /// Every file in the project's directories whose name has one of these forms.
    Subtree { names: Vec<&'static str>, depth: usize, cap: usize },
}

/// Where manifests are looked for, as a value.
#[verifier::ext_equal]
pub enum FindView {
    Root(&'static str, usize),
    Subtree { names: Seq<&'static str>, depth: usize, cap: usize },
}

impl View for Find {
    type V = FindView;

    open spec fn view(&self) -> FindView {
        match self {
            Find::Root(f, cap) => FindView::Root(*f, *cap),
            Find::Subtree { names, depth, cap } => FindView::Subtree {
                names: names@,
                depth: *depth,
                cap: *cap,
            },
        }
    }
}

/// A list that a project holds of itself.
#[derive(Clone, Copy, Debug, PartialEq, Eq, Structural)]
pub enum ProjectField {
    Names,
    BundleIds,
}

/// What makes a row apply to a project, and which keys it gives.
#[derive(Debug)]
pub enum Trigger {
    /// Always, with one empty key.
    Always,
    /// Where this exists in the project's root, with one empty key.
    Exists(&'static str),
    /// The first source whose value can be brought into form.
    Pin { sources: Vec<PinSource>, normalise: Normalise },
    /// The keys that the manifests list.
    Manifest { find: Find, parse: Parse },
    /// One key for each item of the list.
    Field(ProjectField),
}

/// What makes a row apply, as a value.
#[verifier::ext_equal]
pub enum TriggerView {
    Always,
    Exists(&'static str),
    Pin { sources: Seq<PinSourceView>, normalise: Normalise },
    Manifest { find: FindView, parse: Parse },
    Field(ProjectField),
}

impl View for Trigger {
    type V = TriggerView;

    open spec fn view(&self) -> TriggerView {
        match self {
            Trigger::Always => TriggerView::Always,
            Trigger::Exists(rel) => TriggerView::Exists(*rel),
            Trigger::Pin { sources, normalise } => TriggerView::Pin {
                sources: sources.deep_view(),
                normalise: *normalise,
            },
            Trigger::Manifest { find, parse } => TriggerView::Manifest {
                find: find@,
                parse: *parse,
            },
            Trigger::Field(f) => TriggerView::Field(*f),
        }
    }
}

/// Which of several matching entries count.
#[derive(Clone, Copy, Debug, PartialEq, Eq, Structural)]
pub enum Select {
    /// All of them.
    All,
    /// The one that the pin stands for.
    MaxSemver,
    /// The first by name.
    First,
}

/// Which paths a finding gives.
#[derive(Clone, Copy, Debug, PartialEq, Eq, Structural)]
pub enum PathFrom {
    Path,
    AppPaths,
}

/// Where a key leads.
#[derive(Debug)]
pub enum Target {
    /// To the paths that these templates stand for, as far as they exist; without templates to
    /// what made the row apply.
    Path(Vec<&'static str>),
    /// To the entries of these directories whose names begin with the prefix.
    Match { dirs: Vec<&'static str>, prefix: &'static str, select: Select },
    /// To what the finding of a section gives that has the key under one of these names.
    Finding {
        scanner: ScannerId,
        kind: FindingKind,
        key_meta: Vec<&'static str>,
        path: PathFrom,
    },
    /// To what a function gives.
    Derive(Derive),
}

/// Where a key leads, as a value.
#[verifier::ext_equal]
pub enum TargetView {
    Path(Seq<&'static str>),
    Match { dirs: Seq<&'static str>, prefix: &'static str, select: Select },
    Finding {
        scanner: ScannerId,
        kind: FindingKind,
        key_meta: Seq<&'static str>,
        path: PathFrom,
    },
    Derive(Derive),
}

impl View for Target {
    type V = TargetView;

    open spec fn view(&self) -> TargetView {
        match self {
            Target::Path(t) => TargetView::Path(t@),
            Target::Match { dirs, prefix, select } => TargetView::Match {
                dirs: dirs@,
                prefix: *prefix,
                select: *select,
            },
            Target::Finding { scanner, kind, key_meta, path } => TargetView::Finding {
                scanner: *scanner,
                kind: *kind,
                key_meta: key_meta@,
                path: *path,
            },
            Target::Derive(d) => TargetView::Derive(*d),
        }
    }
}

/// From a project's files to paths in the home directory.
#[derive(Debug)]
pub struct Lookup {
    pub id: &'static str,
    pub ecosystem: Option<&'static str>,
    pub trigger: Trigger,
    pub target: Target,
    pub kind: EntryKind,
    pub tier: EvidenceTier,
    pub evidence: &'static str,
    pub label: &'static str,
    pub flags: Flags,
}

/// From a project's files to paths in the home directory, as a value.
#[verifier::ext_equal]
pub struct LookupView {
    pub id: &'static str,
    pub ecosystem: Option<&'static str>,
    pub trigger: TriggerView,
    pub target: TargetView,
    pub kind: EntryKind,
    pub tier: EvidenceTier,
    pub evidence: &'static str,
    pub label: &'static str,
    pub flags: Flags,
}

impl View for Lookup {
    type V = LookupView;

    open spec fn view(&self) -> LookupView {
        LookupView {
            id: self.id,
            ecosystem: self.ecosystem,
            trigger: self.trigger@,
            target: self.target@,
            kind: self.kind,
            tier: self.tier,
            evidence: self.evidence,
            label: self.label,
            flags: self.flags,
        }
    }
}

impl DeepView for Lookup {
    type V = LookupView;

    open spec fn deep_view(&self) -> LookupView {
        self@
    }
}

/// Which entries of the home directory are looked at.
#[derive(Debug)]
pub enum Scan {
    /// The directories exactly `depth` levels below these; at depth zero these themselves.
    Dirs { roots: Vec<&'static str>, depth: usize, skip: Vec<&'static str> },
    /// The files below these whose names have this form; at most `cap` files are looked at.
    Files { roots: Vec<&'static str>, name: Option<&'static str>, cap: usize },
}

/// Which entries are looked at, as a value.
#[verifier::ext_equal]
pub enum ScanView {
    Dirs { roots: Seq<&'static str>, depth: usize, skip: Seq<&'static str> },
    Files { roots: Seq<&'static str>, name: Option<&'static str>, cap: usize },
}

impl View for Scan {
    type V = ScanView;

    open spec fn view(&self) -> ScanView {
        match self {
            Scan::Dirs { roots, depth, skip } => ScanView::Dirs {
                roots: roots@,
                depth: *depth,
                skip: skip@,
            },
            Scan::Files { roots, name, cap } => ScanView::Files {
                roots: roots@,
                name: *name,
                cap: *cap,
            },
        }
    }
}

/// How an entry names a project.
#[derive(Debug)]
pub enum Extract {
    /// By the value of a key in a property list.
    PlistKey { file: &'static str, key: &'static str },
    /// By the first of these keys in a JSON file that holds a `file://` URI.
    JsonUri { file: &'static str, keys: Vec<&'static str> },
    /// By the first working directory in its session files, or in itself where it is a file.
    JsonlCwd { max_files: usize, head: usize },
    /// By what the links in it point to.
    SymlinkTargets { subdir: &'static str },
    /// By what a function says.
    Fn(Extractor),
}

/// How an entry names a project, as a value.
#[verifier::ext_equal]
pub enum ExtractView {
    PlistKey { file: &'static str, key: &'static str },
    JsonUri { file: &'static str, keys: Seq<&'static str> },
    JsonlCwd { max_files: usize, head: usize },
    SymlinkTargets { subdir: &'static str },
    Fn(Extractor),
}

impl View for Extract {
    type V = ExtractView;

    open spec fn view(&self) -> ExtractView {
        match self {
            Extract::PlistKey { file, key } => ExtractView::PlistKey { file: *file, key: *key },
            Extract::JsonUri { file, keys } => ExtractView::JsonUri { file: *file, keys: keys@ },
            Extract::JsonlCwd { max_files, head } => ExtractView::JsonlCwd {
                max_files: *max_files,
                head: *head,
            },
            Extract::SymlinkTargets { subdir } => ExtractView::SymlinkTargets { subdir: *subdir },
            Extract::Fn(f) => ExtractView::Fn(*f),
        }
    }
}

/// Which project is meant.
#[derive(Clone, Copy, Debug, PartialEq, Eq, Structural)]
pub enum Matcher {
    /// The one that the path lies in.
    PathUnderProject,
    /// The one with this bundle id.
    BundleId,
}

/// What is claimed.
#[derive(Clone, Copy, Debug, PartialEq, Eq, Structural)]
pub enum ClaimAt {
    /// The entry.
    Entry,
    /// What the entry lies in.
    Parent,
}

/// What counts where an entry names no project.
#[derive(Clone, Copy, Debug, PartialEq, Eq, Structural)]
pub enum Fallback {
    /// The entry's name, where it is a project's path with dashes.
    EncodedProjectDir,
}

/// What in the home directory names a project.
#[derive(Debug)]
pub struct ReverseLink {
    pub id: &'static str,
    pub ecosystem: Option<&'static str>,
    pub kind: EntryKind,
    pub tier: EvidenceTier,
    pub evidence: &'static str,
    pub label: &'static str,
    pub scan: Scan,
    pub extract: Extract,
    pub matcher: Matcher,
    pub claim: ClaimAt,
    /// The evidence where what the entry names is gone.
    pub stale: Option<&'static str>,
    pub fallback: Option<Fallback>,
}

/// What in the home directory names a project, as a value.
#[verifier::ext_equal]
pub struct ReverseLinkView {
    pub id: &'static str,
    pub ecosystem: Option<&'static str>,
    pub kind: EntryKind,
    pub tier: EvidenceTier,
    pub evidence: &'static str,
    pub label: &'static str,
    pub scan: ScanView,
    pub extract: ExtractView,
    pub matcher: Matcher,
    pub claim: ClaimAt,
    pub stale: Option<&'static str>,
    pub fallback: Option<Fallback>,
}

impl View for ReverseLink {
    type V = ReverseLinkView;

    open spec fn view(&self) -> ReverseLinkView {
        ReverseLinkView {
            id: self.id,
            ecosystem: self.ecosystem,
            kind: self.kind,
            tier: self.tier,
            evidence: self.evidence,
            label: self.label,
            scan: self.scan@,
            extract: self.extract@,
            matcher: self.matcher,
            claim: self.claim,
            stale: self.stale,
            fallback: self.fallback,
        }
    }
}

impl DeepView for ReverseLink {
    type V = ReverseLinkView;

    open spec fn deep_view(&self) -> ReverseLinkView {
        self@
    }
}

/// How a path of an ecosystem is labelled.
#[derive(Clone, Copy, Debug)]
pub enum Label {
    Static(&'static str),
    Basename,
    Fn(LabelFn),
}

/// Where a path of an ecosystem comes from.
#[derive(Clone, Copy, Debug)]
pub enum Source {
    /// From the template.
    Fixed,
    /// From the template, with the value in a file put in for `{value}`.
    FromFile { file: &'static str, parse: FileValue },
    /// From the finding of a section with this name.
    FromFinding { scanner: ScannerId, kind: FindingKind, name: &'static str },
}

/// What belongs to a whole ecosystem.
#[derive(Debug)]
pub struct Baseline {
    pub ecosystem: &'static str,
    pub path: &'static str,
    pub kind: EntryKind,
    pub label: Label,
    pub evidence: &'static str,
    pub source: Source,
    /// The names of entries that do not count.
    pub exclude: Vec<&'static str>,
}

/// What belongs to a whole ecosystem, as a value.
#[verifier::ext_equal]
pub struct BaselineView {
    pub ecosystem: &'static str,
    pub path: &'static str,
    pub kind: EntryKind,
    pub label: Label,
    pub evidence: &'static str,
    pub source: Source,
    pub exclude: Seq<&'static str>,
}

impl View for Baseline {
    type V = BaselineView;

    open spec fn view(&self) -> BaselineView {
        BaselineView {
            ecosystem: self.ecosystem,
            path: self.path,
            kind: self.kind,
            label: self.label,
            evidence: self.evidence,
            source: self.source,
            exclude: self.exclude@,
        }
    }
}

impl DeepView for Baseline {
    type V = BaselineView;

    open spec fn deep_view(&self) -> BaselineView {
        self@
    }
}

/// Put more rows behind the others.
fn put_rows<T: DeepView>(rows: &mut Vec<T>, more: Vec<T>)
    ensures
        final(rows).deep_view() == old(rows).deep_view() + more.deep_view(),
{
    let ghost was = rows.deep_view();
    let mut rest = more;
    rows.append(&mut rest);
    assert(rows.deep_view() =~= was + more.deep_view());
}

/// The rows for Node.
pub open spec fn node_lookup_table() -> Seq<LookupView> {
    seq![
        LookupView {
            id: "pnpm-clone",
            ecosystem: Some("node"),
            trigger: TriggerView::Exists("node_modules/.pnpm"),
            target: TargetView::Path(seq![]),
            kind: EntryKind::Artifacts,
            tier: EvidenceTier::Exact,
            evidence: "node_modules/.pnpm is a reflink clone of the pnpm store",
            label: "node_modules/.pnpm (clone of store)",
            flags: CLONE_OF_STORE,
        },
        LookupView {
            id: "npm-cacache",
            ecosystem: Some("node"),
            trigger: TriggerView::Manifest {
                find: FindView::Root("package-lock.json", LOCKFILE_CAP),
                parse: Parse::PackageLock,
            },
            target: TargetView::Derive(Derive::NpmCacache),
            kind: EntryKind::PackageCache,
            tier: EvidenceTier::Exact,
            evidence: "package-lock.json",
            label: "{name} {version}",
            flags: NONE,
        },
        LookupView {
            id: "yarn-berry",
            ecosystem: Some("node"),
            trigger: TriggerView::Manifest {
                find: FindView::Root("yarn.lock", LOCKFILE_CAP),
                parse: Parse::YarnBerry,
            },
            target: TargetView::Match {
                dirs: seq!["~/Library/Caches/Yarn/berry/cache"],
                prefix: "{name-flat}-npm-{version}-",
                select: Select::All,
            },
            kind: EntryKind::PackageCache,
            tier: EvidenceTier::Exact,
            evidence: "yarn.lock",
            label: "{name} {version}",
            flags: NONE,
        },
        LookupView {
            id: "bun",
            ecosystem: Some("node"),
            trigger: TriggerView::Manifest {
                find: FindView::Root("bun.lock", LOCKFILE_CAP),
                parse: Parse::BunLock,
            },
            target: TargetView::Match {
                dirs: seq!["~/.bun/install/cache"],
                prefix: "{name}@{version}",
                select: Select::All,
            },
            kind: EntryKind::PackageCache,
            tier: EvidenceTier::Exact,
            evidence: "bun.lock",
            label: "{name} {version}",
            flags: NONE,
        },
        LookupView {
            id: "bun-lockb",
            ecosystem: Some("node"),
            trigger: TriggerView::Exists("bun.lockb"),
            target: TargetView::Path(seq!["~/.bun/install/cache"]),
            kind: EntryKind::PackageCache,
            tier: EvidenceTier::EcosystemDefault,
            evidence: "bun.lockb present",
            label: "bun cache",
            flags: NONE,
        },
        LookupView {
            id: "node-pin",
            ecosystem: Some("node"),
            trigger: TriggerView::Pin {
                sources: seq![
                    PinSourceView::Line(".nvmrc"),
                    PinSourceView::Line(".node-version"),
                    PinSourceView::TomlKey(".tool-versions", "nodejs"),
                    PinSourceView::TomlKey(".mise.toml", "node"),
                    PinSourceView::TomlKey("mise.toml", "node"),
                    PinSourceView::JsonPath("package.json", seq!["volta", "node"]),
                ],
                normalise: Normalise::NodePin,
            },
            target: TargetView::Match {
                dirs: seq![
                    "~/.nvm/versions/node",
                    "~/.fnm/node-versions",
                    "~/.volta/tools/image/node",
                    "~/.local/share/mise/installs/node",
                    "~/Library/pnpm/nodejs",
                ],
                prefix: "",
                select: Select::MaxSemver,
            },
            kind: EntryKind::Toolchain,
            tier: EvidenceTier::Exact,
            evidence: "node version pin",
            label: "node {basename}",
            flags: V_PREFIX,
        },
    ]
}

/// The rows for Node.
pub fn node_lookup_rows() -> (r: Vec<Lookup>)
    ensures
        r.deep_view() == node_lookup_table(),
{
    let r = vec![
        Lookup {
            id: "pnpm-clone",
            ecosystem: Some("node"),
            trigger: Trigger::Exists("node_modules/.pnpm"),
            target: Target::Path(vec![]),
            kind: EntryKind::Artifacts,
            tier: EvidenceTier::Exact,
            evidence: "node_modules/.pnpm is a reflink clone of the pnpm store",
            label: "node_modules/.pnpm (clone of store)",
            flags: CLONE_OF_STORE,
        },
        Lookup {
            id: "npm-cacache",
            ecosystem: Some("node"),
            trigger: Trigger::Manifest {
                find: Find::Root("package-lock.json", LOCKFILE_CAP),
                parse: Parse::PackageLock,
            },
            target: Target::Derive(Derive::NpmCacache),
            kind: EntryKind::PackageCache,
            tier: EvidenceTier::Exact,
            evidence: "package-lock.json",
            label: "{name} {version}",
            flags: NONE,
        },
        Lookup {
            id: "yarn-berry",
            ecosystem: Some("node"),
            trigger: Trigger::Manifest {
                find: Find::Root("yarn.lock", LOCKFILE_CAP),
                parse: Parse::YarnBerry,
            },
            target: Target::Match {
                dirs: vec!["~/Library/Caches/Yarn/berry/cache"],
                prefix: "{name-flat}-npm-{version}-",
                select: Select::All,
            },
            kind: EntryKind::PackageCache,
            tier: EvidenceTier::Exact,
            evidence: "yarn.lock",
            label: "{name} {version}",
            flags: NONE,
        },
        Lookup {
            id: "bun",
            ecosystem: Some("node"),
            trigger: Trigger::Manifest {
                find: Find::Root("bun.lock", LOCKFILE_CAP),
                parse: Parse::BunLock,
            },
            target: Target::Match {
                dirs: vec!["~/.bun/install/cache"],
                prefix: "{name}@{version}",
                select: Select::All,
            },
            kind: EntryKind::PackageCache,
            tier: EvidenceTier::Exact,
            evidence: "bun.lock",
            label: "{name} {version}",
            flags: NONE,
        },
        Lookup {
            id: "bun-lockb",
            ecosystem: Some("node"),
            trigger: Trigger::Exists("bun.lockb"),
            target: Target::Path(vec!["~/.bun/install/cache"]),
            kind: EntryKind::PackageCache,
            tier: EvidenceTier::EcosystemDefault,
            evidence: "bun.lockb present",
            label: "bun cache",
            flags: NONE,
        },
        Lookup {
            id: "node-pin",
            ecosystem: Some("node"),
            trigger: Trigger::Pin {
                sources: vec![
                    PinSource::Line(".nvmrc"),
                    PinSource::Line(".node-version"),
                    PinSource::TomlKey(".tool-versions", "nodejs"),
                    PinSource::TomlKey(".mise.toml", "node"),
                    PinSource::TomlKey("mise.toml", "node"),
                    PinSource::JsonPath("package.json", vec!["volta", "node"]),
                ],
                normalise: Normalise::NodePin,
            },
            target: Target::Match {
                dirs: vec![
                    "~/.nvm/versions/node",
                    "~/.fnm/node-versions",
                    "~/.volta/tools/image/node",
                    "~/.local/share/mise/installs/node",
                    "~/Library/pnpm/nodejs",
                ],
                prefix: "",
                select: Select::MaxSemver,
            },
            kind: EntryKind::Toolchain,
            tier: EvidenceTier::Exact,
            evidence: "node version pin",
            label: "node {basename}",
            flags: V_PREFIX,
        },
    ];
    assert(r@[0]@ =~~= node_lookup_table()[0]);
    assert(r@[1]@ =~~= node_lookup_table()[1]);
    assert(r@[2]@ =~~= node_lookup_table()[2]);
    assert(r@[3]@ =~~= node_lookup_table()[3]);
    assert(r@[4]@ =~~= node_lookup_table()[4]);
    assert(r@[5]@ =~~= node_lookup_table()[5]);
    assert(r.deep_view() =~= node_lookup_table());
    r
}

/// The rows for Rust.
pub open spec fn rust_lookup_table() -> Seq<LookupView> {
    seq![
        LookupView {
            id: "cargo-registry",
            ecosystem: Some("rust"),
            trigger: TriggerView::Manifest {
                find: FindView::Subtree {
                    names: seq!["Cargo.lock"],
                    depth: 5,
                    cap: LOCKFILE_CAP,
                },
                parse: Parse::CargoRegistry,
            },
            target: TargetView::Path(seq![
                "~/.cargo/registry/cache/*/{name}-{version}.crate",
                "~/.cargo/registry/src/*/{name}-{version}",
            ]),
            kind: EntryKind::PackageCache,
            tier: EvidenceTier::Exact,
            evidence: "{relfile}",
            label: "{name} {version}",
            flags: NONE,
        },
        LookupView {
            id: "cargo-git",
            ecosystem: Some("rust"),
            trigger: TriggerView::Manifest {
                find: FindView::Subtree {
                    names: seq!["Cargo.lock"],
                    depth: 5,
                    cap: LOCKFILE_CAP,
                },
                parse: Parse::CargoGit,
            },
            target: TargetView::Match {
                dirs: seq!["~/.cargo/git/checkouts", "~/.cargo/git/db"],
                prefix: "{basename}-",
                select: Select::All,
            },
            kind: EntryKind::PackageCache,
            tier: EvidenceTier::NameMatch,
            evidence: "{relfile}",
            label: "{name} {version}",
            flags: NONE,
        },
        LookupView {
            id: "rust-toolchain",
            ecosystem: Some("rust"),
            trigger: TriggerView::Pin {
                sources: seq![
                    PinSourceView::TomlKey("rust-toolchain.toml", "channel"),
                    PinSourceView::Line("rust-toolchain.toml"),
                    PinSourceView::TomlKey("rust-toolchain", "channel"),
                    PinSourceView::Line("rust-toolchain"),
                ],
                normalise: Normalise::Identity,
            },
            target: TargetView::Match {
                dirs: seq!["~/.rustup/toolchains"],
                prefix: "",
                select: Select::MaxSemver,
            },
            kind: EntryKind::Toolchain,
            tier: EvidenceTier::Exact,
            evidence: "rust-toolchain pins {key}",
            label: "{basename}",
            flags: NONE,
        },
        LookupView {
            id: "cargo-target-config",
            ecosystem: Some("rust"),
            trigger: TriggerView::Manifest {
                find: FindView::Root(".cargo/config.toml", MANIFEST_CAP),
                parse: Parse::CargoConfig,
            },
            target: TargetView::Derive(Derive::CargoTargetDir),
            kind: EntryKind::Artifacts,
            tier: EvidenceTier::Exact,
            evidence: "target-dir in .cargo/config.toml",
            label: "{basename}",
            flags: NONE,
        },
        LookupView {
            id: "cargo-target-scripts",
            ecosystem: Some("rust"),
            trigger: TriggerView::Manifest {
                find: FindView::Root("package.json", MANIFEST_CAP),
                parse: Parse::CargoScripts,
            },
            target: TargetView::Derive(Derive::CargoTargetDir),
            kind: EntryKind::Artifacts,
            tier: EvidenceTier::Exact,
            evidence: "CARGO_TARGET_DIR in package.json",
            label: "{basename}",
            flags: NONE,
        },
        LookupView {
            id: "cargo-target-shell",
            ecosystem: Some("rust"),
            trigger: TriggerView::Manifest {
                find: FindView::Subtree {
                    names: seq!["Makefile", "justfile", ".env", ".env.*", "*.sh"],
                    depth: 4,
                    cap: MANIFEST_CAP,
                },
                parse: Parse::CargoShell,
            },
            target: TargetView::Derive(Derive::CargoTargetDir),
            kind: EntryKind::Artifacts,
            tier: EvidenceTier::Exact,
            evidence: "CARGO_TARGET_DIR in {relfile}",
            label: "{basename}",
            flags: NONE,
        },
    ]
}

/// The rows for Rust.
pub fn rust_lookup_rows() -> (r: Vec<Lookup>)
    ensures
        r.deep_view() == rust_lookup_table(),
{
    let r = vec![
        Lookup {
            id: "cargo-registry",
            ecosystem: Some("rust"),
            trigger: Trigger::Manifest {
                find: Find::Subtree {
                    names: vec!["Cargo.lock"],
                    depth: 5,
                    cap: LOCKFILE_CAP,
                },
                parse: Parse::CargoRegistry,
            },
            target: Target::Path(vec![
                "~/.cargo/registry/cache/*/{name}-{version}.crate",
                "~/.cargo/registry/src/*/{name}-{version}",
            ]),
            kind: EntryKind::PackageCache,
            tier: EvidenceTier::Exact,
            evidence: "{relfile}",
            label: "{name} {version}",
            flags: NONE,
        },
        Lookup {
            id: "cargo-git",
            ecosystem: Some("rust"),
            trigger: Trigger::Manifest {
                find: Find::Subtree {
                    names: vec!["Cargo.lock"],
                    depth: 5,
                    cap: LOCKFILE_CAP,
                },
                parse: Parse::CargoGit,
            },
            target: Target::Match {
                dirs: vec!["~/.cargo/git/checkouts", "~/.cargo/git/db"],
                prefix: "{basename}-",
                select: Select::All,
            },
            kind: EntryKind::PackageCache,
            tier: EvidenceTier::NameMatch,
            evidence: "{relfile}",
            label: "{name} {version}",
            flags: NONE,
        },
        Lookup {
            id: "rust-toolchain",
            ecosystem: Some("rust"),
            trigger: Trigger::Pin {
                sources: vec![
                    PinSource::TomlKey("rust-toolchain.toml", "channel"),
                    PinSource::Line("rust-toolchain.toml"),
                    PinSource::TomlKey("rust-toolchain", "channel"),
                    PinSource::Line("rust-toolchain"),
                ],
                normalise: Normalise::Identity,
            },
            target: Target::Match {
                dirs: vec!["~/.rustup/toolchains"],
                prefix: "",
                select: Select::MaxSemver,
            },
            kind: EntryKind::Toolchain,
            tier: EvidenceTier::Exact,
            evidence: "rust-toolchain pins {key}",
            label: "{basename}",
            flags: NONE,
        },
        Lookup {
            id: "cargo-target-config",
            ecosystem: Some("rust"),
            trigger: Trigger::Manifest {
                find: Find::Root(".cargo/config.toml", MANIFEST_CAP),
                parse: Parse::CargoConfig,
            },
            target: Target::Derive(Derive::CargoTargetDir),
            kind: EntryKind::Artifacts,
            tier: EvidenceTier::Exact,
            evidence: "target-dir in .cargo/config.toml",
            label: "{basename}",
            flags: NONE,
        },
        Lookup {
            id: "cargo-target-scripts",
            ecosystem: Some("rust"),
            trigger: Trigger::Manifest {
                find: Find::Root("package.json", MANIFEST_CAP),
                parse: Parse::CargoScripts,
            },
            target: Target::Derive(Derive::CargoTargetDir),
            kind: EntryKind::Artifacts,
            tier: EvidenceTier::Exact,
            evidence: "CARGO_TARGET_DIR in package.json",
            label: "{basename}",
            flags: NONE,
        },
        Lookup {
            id: "cargo-target-shell",
            ecosystem: Some("rust"),
            trigger: Trigger::Manifest {
                find: Find::Subtree {
                    names: vec!["Makefile", "justfile", ".env", ".env.*", "*.sh"],
                    depth: 4,
                    cap: MANIFEST_CAP,
                },
                parse: Parse::CargoShell,
            },
            target: Target::Derive(Derive::CargoTargetDir),
            kind: EntryKind::Artifacts,
            tier: EvidenceTier::Exact,
            evidence: "CARGO_TARGET_DIR in {relfile}",
            label: "{basename}",
            flags: NONE,
        },
    ];
    assert(r@[0]@ =~~= rust_lookup_table()[0]);
    assert(r@[1]@ =~~= rust_lookup_table()[1]);
    assert(r@[2]@ =~~= rust_lookup_table()[2]);
    assert(r@[3]@ =~~= rust_lookup_table()[3]);
    assert(r@[4]@ =~~= rust_lookup_table()[4]);
    assert(r@[5]@ =~~= rust_lookup_table()[5]);
    assert(r.deep_view() =~= rust_lookup_table());
    r
}

/// The rows for Go.
pub open spec fn go_lookup_table() -> Seq<LookupView> {
    seq![
        LookupView {
            id: "go-sum",
            ecosystem: Some("go"),
            trigger: TriggerView::Manifest {
                find: FindView::Root("go.sum", LOCKFILE_CAP),
                parse: Parse::GoSum,
            },
            target: TargetView::Derive(Derive::GoModuleCache),
            kind: EntryKind::PackageCache,
            tier: EvidenceTier::Exact,
            evidence: "go.sum",
            label: "{name} {version}",
            flags: NONE,
        },
    ]
}

/// The rows for Go.
pub fn go_lookup_rows() -> (r: Vec<Lookup>)
    ensures
        r.deep_view() == go_lookup_table(),
{
    let r = vec![
        Lookup {
            id: "go-sum",
            ecosystem: Some("go"),
            trigger: Trigger::Manifest {
                find: Find::Root("go.sum", LOCKFILE_CAP),
                parse: Parse::GoSum,
            },
            target: Target::Derive(Derive::GoModuleCache),
            kind: EntryKind::PackageCache,
            tier: EvidenceTier::Exact,
            evidence: "go.sum",
            label: "{name} {version}",
            flags: NONE,
        },
    ];
    assert(r@[0]@ =~~= go_lookup_table()[0]);
    assert(r.deep_view() =~= go_lookup_table());
    r
}

/// The rows for Python.
pub open spec fn python_lookup_table() -> Seq<LookupView> {
    seq![
        LookupView {
            id: "python-pin-uv",
            ecosystem: Some("python"),
            trigger: TriggerView::Pin {
                sources: seq![PinSourceView::Line(".python-version")],
                normalise: Normalise::Identity,
            },
            target: TargetView::Match {
                dirs: seq!["~/.local/share/uv/python"],
                prefix: "cpython-",
                select: Select::MaxSemver,
            },
            kind: EntryKind::Toolchain,
            tier: EvidenceTier::Exact,
            evidence: ".python-version pin",
            label: "Python {key} (uv)",
            flags: NONE,
        },
        LookupView {
            id: "python-pin-pyenv",
            ecosystem: Some("python"),
            trigger: TriggerView::Pin {
                sources: seq![PinSourceView::Line(".python-version")],
                normalise: Normalise::Identity,
            },
            target: TargetView::Match {
                dirs: seq!["~/.pyenv/versions"],
                prefix: "",
                select: Select::MaxSemver,
            },
            kind: EntryKind::Toolchain,
            tier: EvidenceTier::Exact,
            evidence: ".python-version pin",
            label: "Python {key} (pyenv)",
            flags: NONE,
        },
        LookupView {
            id: "uv-cache",
            ecosystem: Some("python"),
            trigger: TriggerView::Exists("uv.lock"),
            target: TargetView::Path(seq!["~/.cache/uv"]),
            kind: EntryKind::PackageCache,
            tier: EvidenceTier::EcosystemDefault,
            evidence: "uv.lock present",
            label: "uv cache",
            flags: NONE,
        },
        LookupView {
            id: "poetry-cache",
            ecosystem: Some("python"),
            trigger: TriggerView::Exists("poetry.lock"),
            target: TargetView::Path(seq!["~/Library/Caches/pypoetry"]),
            kind: EntryKind::PackageCache,
            tier: EvidenceTier::EcosystemDefault,
            evidence: "poetry.lock present",
            label: "Poetry cache",
            flags: NONE,
        },
    ]
}

/// The rows for Python.
pub fn python_lookup_rows() -> (r: Vec<Lookup>)
    ensures
        r.deep_view() == python_lookup_table(),
{
    let r = vec![
        Lookup {
            id: "python-pin-uv",
            ecosystem: Some("python"),
            trigger: Trigger::Pin {
                sources: vec![PinSource::Line(".python-version")],
                normalise: Normalise::Identity,
            },
            target: Target::Match {
                dirs: vec!["~/.local/share/uv/python"],
                prefix: "cpython-",
                select: Select::MaxSemver,
            },
            kind: EntryKind::Toolchain,
            tier: EvidenceTier::Exact,
            evidence: ".python-version pin",
            label: "Python {key} (uv)",
            flags: NONE,
        },
        Lookup {
            id: "python-pin-pyenv",
            ecosystem: Some("python"),
            trigger: Trigger::Pin {
                sources: vec![PinSource::Line(".python-version")],
                normalise: Normalise::Identity,
            },
            target: Target::Match {
                dirs: vec!["~/.pyenv/versions"],
                prefix: "",
                select: Select::MaxSemver,
            },
            kind: EntryKind::Toolchain,
            tier: EvidenceTier::Exact,
            evidence: ".python-version pin",
            label: "Python {key} (pyenv)",
            flags: NONE,
        },
        Lookup {
            id: "uv-cache",
            ecosystem: Some("python"),
            trigger: Trigger::Exists("uv.lock"),
            target: Target::Path(vec!["~/.cache/uv"]),
            kind: EntryKind::PackageCache,
            tier: EvidenceTier::EcosystemDefault,
            evidence: "uv.lock present",
            label: "uv cache",
            flags: NONE,
        },
        Lookup {
            id: "poetry-cache",
            ecosystem: Some("python"),
            trigger: Trigger::Exists("poetry.lock"),
            target: Target::Path(vec!["~/Library/Caches/pypoetry"]),
            kind: EntryKind::PackageCache,
            tier: EvidenceTier::EcosystemDefault,
            evidence: "poetry.lock present",
            label: "Poetry cache",
            flags: NONE,
        },
    ];
    assert(r@[0]@ =~~= python_lookup_table()[0]);
    assert(r@[1]@ =~~= python_lookup_table()[1]);
    assert(r@[2]@ =~~= python_lookup_table()[2]);
    assert(r@[3]@ =~~= python_lookup_table()[3]);
    assert(r.deep_view() =~= python_lookup_table());
    r
}

/// The rows for Swift.
pub open spec fn swift_lookup_table() -> Seq<LookupView> {
    seq![
        LookupView {
            id: "swiftpm",
            ecosystem: Some("swift"),
            trigger: TriggerView::Manifest {
                find: FindView::Root("Package.resolved", MANIFEST_CAP),
                parse: Parse::PackageResolved,
            },
            target: TargetView::Match {
                dirs: seq!["~/Library/Caches/org.swift.swiftpm/repositories"],
                prefix: "{basename}-",
                select: Select::First,
            },
            kind: EntryKind::PackageCache,
            tier: EvidenceTier::Exact,
            evidence: "Package.resolved",
            label: "{name}",
            flags: CASE_INSENSITIVE,
        },
        LookupView {
            id: "swiftpm-xcode",
            ecosystem: Some("swift"),
            trigger: TriggerView::Manifest {
                find: FindView::Subtree {
                    names: seq!["Package.resolved"],
                    depth: 2,
                    cap: MANIFEST_CAP,
                },
                parse: Parse::PackageResolved,
            },
            target: TargetView::Match {
                dirs: seq!["~/Library/Caches/org.swift.swiftpm/repositories"],
                prefix: "{basename}-",
                select: Select::First,
            },
            kind: EntryKind::PackageCache,
            tier: EvidenceTier::Exact,
            evidence: "{relfile}",
            label: "{name}",
            flags: CASE_INSENSITIVE,
        },
    ]
}

/// The rows for Swift.
pub fn swift_lookup_rows() -> (r: Vec<Lookup>)
    ensures
        r.deep_view() == swift_lookup_table(),
{
    let r = vec![
        Lookup {
            id: "swiftpm",
            ecosystem: Some("swift"),
            trigger: Trigger::Manifest {
                find: Find::Root("Package.resolved", MANIFEST_CAP),
                parse: Parse::PackageResolved,
            },
            target: Target::Match {
                dirs: vec!["~/Library/Caches/org.swift.swiftpm/repositories"],
                prefix: "{basename}-",
                select: Select::First,
            },
            kind: EntryKind::PackageCache,
            tier: EvidenceTier::Exact,
            evidence: "Package.resolved",
            label: "{name}",
            flags: CASE_INSENSITIVE,
        },
        Lookup {
            id: "swiftpm-xcode",
            ecosystem: Some("swift"),
            trigger: Trigger::Manifest {
                find: Find::Subtree {
                    names: vec!["Package.resolved"],
                    depth: 2,
                    cap: MANIFEST_CAP,
                },
                parse: Parse::PackageResolved,
            },
            target: Target::Match {
                dirs: vec!["~/Library/Caches/org.swift.swiftpm/repositories"],
                prefix: "{basename}-",
                select: Select::First,
            },
            kind: EntryKind::PackageCache,
            tier: EvidenceTier::Exact,
            evidence: "{relfile}",
            label: "{name}",
            flags: CASE_INSENSITIVE,
        },
    ];
    assert(r@[0]@ =~~= swift_lookup_table()[0]);
    assert(r@[1]@ =~~= swift_lookup_table()[1]);
    assert(r.deep_view() =~= swift_lookup_table());
    r
}

/// The rows for Homebrew.
pub open spec fn brew_lookup_table() -> Seq<LookupView> {
    seq![
        LookupView {
            id: "brewfile-formula",
            ecosystem: None,
            trigger: TriggerView::Manifest {
                find: FindView::Root("Brewfile", MANIFEST_CAP),
                parse: Parse::BrewFormulae,
            },
            target: TargetView::Finding {
                scanner: ScannerId::Brew,
                kind: FindingKind::BrewFormula,
                key_meta: seq!["name"],
                path: PathFrom::Path,
            },
            kind: EntryKind::Toolchain,
            tier: EvidenceTier::Exact,
            evidence: "Brewfile",
            label: "brew {name}",
            flags: NONE,
        },
        LookupView {
            id: "brewfile-cask",
            ecosystem: None,
            trigger: TriggerView::Manifest {
                find: FindView::Root("Brewfile", MANIFEST_CAP),
                parse: Parse::BrewCasks,
            },
            target: TargetView::Finding {
                scanner: ScannerId::Brew,
                kind: FindingKind::BrewCask,
                key_meta: seq!["token", "name"],
                path: PathFrom::AppPaths,
            },
            kind: EntryKind::AppBundle,
            tier: EvidenceTier::Exact,
            evidence: "Brewfile",
            label: "brew {name}",
            flags: NONE,
        },
    ]
}

/// The rows for Homebrew.
pub fn brew_lookup_rows() -> (r: Vec<Lookup>)
    ensures
        r.deep_view() == brew_lookup_table(),
{
    let r = vec![
        Lookup {
            id: "brewfile-formula",
            ecosystem: None,
            trigger: Trigger::Manifest {
                find: Find::Root("Brewfile", MANIFEST_CAP),
                parse: Parse::BrewFormulae,
            },
            target: Target::Finding {
                scanner: ScannerId::Brew,
                kind: FindingKind::BrewFormula,
                key_meta: vec!["name"],
                path: PathFrom::Path,
            },
            kind: EntryKind::Toolchain,
            tier: EvidenceTier::Exact,
            evidence: "Brewfile",
            label: "brew {name}",
            flags: NONE,
        },
        Lookup {
            id: "brewfile-cask",
            ecosystem: None,
            trigger: Trigger::Manifest {
                find: Find::Root("Brewfile", MANIFEST_CAP),
                parse: Parse::BrewCasks,
            },
            target: Target::Finding {
                scanner: ScannerId::Brew,
                kind: FindingKind::BrewCask,
                key_meta: vec!["token", "name"],
                path: PathFrom::AppPaths,
            },
            kind: EntryKind::AppBundle,
            tier: EvidenceTier::Exact,
            evidence: "Brewfile",
            label: "brew {name}",
            flags: NONE,
        },
    ];
    assert(r@[0]@ =~~= brew_lookup_table()[0]);
    assert(r@[1]@ =~~= brew_lookup_table()[1]);
    assert(r.deep_view() =~= brew_lookup_table());
    r
}

/// The rows for caches that a project names.
pub open spec fn caches_lookup_table() -> Seq<LookupView> {
    seq![
        LookupView {
            id: "project-name-cache",
            ecosystem: None,
            trigger: TriggerView::Field(ProjectField::Names),
            target: TargetView::Derive(Derive::ProjectNameCache),
            kind: EntryKind::ProjectCache,
            tier: EvidenceTier::NameMatch,
            evidence: "named after project ({key})",
            label: "{basename}",
            flags: NONE,
        },
        LookupView {
            id: "bundle-id-container",
            ecosystem: None,
            trigger: TriggerView::Field(ProjectField::BundleIds),
            target: TargetView::Path(seq!["~/Library/Containers/{key}"]),
            kind: EntryKind::Container,
            tier: EvidenceTier::Exact,
            evidence: "bundle id from project.pbxproj",
            label: "{key}",
            flags: NONE,
        },
        LookupView {
            id: "bundle-id-cache",
            ecosystem: None,
            trigger: TriggerView::Field(ProjectField::BundleIds),
            target: TargetView::Path(seq!["~/Library/Caches/{key}"]),
            kind: EntryKind::Cache,
            tier: EvidenceTier::Exact,
            evidence: "bundle id from project.pbxproj",
            label: "{key}",
            flags: NONE,
        },
        LookupView {
            id: "bundle-id-http-storage",
            ecosystem: None,
            trigger: TriggerView::Field(ProjectField::BundleIds),
            target: TargetView::Path(seq!["~/Library/HTTPStorages/{key}"]),
            kind: EntryKind::WebData,
            tier: EvidenceTier::Exact,
            evidence: "bundle id from project.pbxproj",
            label: "{key}",
            flags: NONE,
        },
        LookupView {
            id: "bundle-id-preferences",
            ecosystem: None,
            trigger: TriggerView::Field(ProjectField::BundleIds),
            target: TargetView::Path(seq!["~/Library/Preferences/{key}.plist"]),
            kind: EntryKind::Preferences,
            tier: EvidenceTier::Exact,
            evidence: "bundle id from project.pbxproj",
            label: "{key}",
            flags: NONE,
        },
        LookupView {
            id: "bundle-id-webkit",
            ecosystem: None,
            trigger: TriggerView::Field(ProjectField::BundleIds),
            target: TargetView::Path(seq!["~/Library/WebKit/{key}"]),
            kind: EntryKind::WebData,
            tier: EvidenceTier::Exact,
            evidence: "bundle id from project.pbxproj",
            label: "{key}",
            flags: NONE,
        },
        LookupView {
            id: "bundle-id-saved-state",
            ecosystem: None,
            trigger: TriggerView::Field(ProjectField::BundleIds),
            target: TargetView::Path(seq!["~/Library/Saved Application State/{key}.savedState"]),
            kind: EntryKind::SavedState,
            tier: EvidenceTier::Exact,
            evidence: "bundle id from project.pbxproj",
            label: "{key}",
            flags: NONE,
        },
    ]
}

/// The rows for caches that a project names.
pub fn caches_lookup_rows() -> (r: Vec<Lookup>)
    ensures
        r.deep_view() == caches_lookup_table(),
{
    let r = vec![
        Lookup {
            id: "project-name-cache",
            ecosystem: None,
            trigger: Trigger::Field(ProjectField::Names),
            target: Target::Derive(Derive::ProjectNameCache),
            kind: EntryKind::ProjectCache,
            tier: EvidenceTier::NameMatch,
            evidence: "named after project ({key})",
            label: "{basename}",
            flags: NONE,
        },
        Lookup {
            id: "bundle-id-container",
            ecosystem: None,
            trigger: Trigger::Field(ProjectField::BundleIds),
            target: Target::Path(vec!["~/Library/Containers/{key}"]),
            kind: EntryKind::Container,
            tier: EvidenceTier::Exact,
            evidence: "bundle id from project.pbxproj",
            label: "{key}",
            flags: NONE,
        },
        Lookup {
            id: "bundle-id-cache",
            ecosystem: None,
            trigger: Trigger::Field(ProjectField::BundleIds),
            target: Target::Path(vec!["~/Library/Caches/{key}"]),
            kind: EntryKind::Cache,
            tier: EvidenceTier::Exact,
            evidence: "bundle id from project.pbxproj",
            label: "{key}",
            flags: NONE,
        },
        Lookup {
            id: "bundle-id-http-storage",
            ecosystem: None,
            trigger: Trigger::Field(ProjectField::BundleIds),
            target: Target::Path(vec!["~/Library/HTTPStorages/{key}"]),
            kind: EntryKind::WebData,
            tier: EvidenceTier::Exact,
            evidence: "bundle id from project.pbxproj",
            label: "{key}",
            flags: NONE,
        },
        Lookup {
            id: "bundle-id-preferences",
            ecosystem: None,
            trigger: Trigger::Field(ProjectField::BundleIds),
            target: Target::Path(vec!["~/Library/Preferences/{key}.plist"]),
            kind: EntryKind::Preferences,
            tier: EvidenceTier::Exact,
            evidence: "bundle id from project.pbxproj",
            label: "{key}",
            flags: NONE,
        },
        Lookup {
            id: "bundle-id-webkit",
            ecosystem: None,
            trigger: Trigger::Field(ProjectField::BundleIds),
            target: Target::Path(vec!["~/Library/WebKit/{key}"]),
            kind: EntryKind::WebData,
            tier: EvidenceTier::Exact,
            evidence: "bundle id from project.pbxproj",
            label: "{key}",
            flags: NONE,
        },
        Lookup {
            id: "bundle-id-saved-state",
            ecosystem: None,
            trigger: Trigger::Field(ProjectField::BundleIds),
            target: Target::Path(vec!["~/Library/Saved Application State/{key}.savedState"]),
            kind: EntryKind::SavedState,
            tier: EvidenceTier::Exact,
            evidence: "bundle id from project.pbxproj",
            label: "{key}",
            flags: NONE,
        },
    ];
    assert(r@[0]@ =~~= caches_lookup_table()[0]);
    assert(r@[1]@ =~~= caches_lookup_table()[1]);
    assert(r@[2]@ =~~= caches_lookup_table()[2]);
    assert(r@[3]@ =~~= caches_lookup_table()[3]);
    assert(r@[4]@ =~~= caches_lookup_table()[4]);
    assert(r@[5]@ =~~= caches_lookup_table()[5]);
    assert(r@[6]@ =~~= caches_lookup_table()[6]);
    assert(r.deep_view() =~= caches_lookup_table());
    r
}

/// The rows for editors.
pub open spec fn tools_lookup_table() -> Seq<LookupView> {
    seq![
        LookupView {
            id: "jetbrains",
            ecosystem: None,
            trigger: TriggerView::Field(ProjectField::Names),
            target: TargetView::Derive(Derive::JetbrainsDirs),
            kind: EntryKind::EditorState,
            tier: EvidenceTier::NameMatch,
            evidence: "JetBrains cache named after {key}",
            label: "{basename}",
            flags: NONE,
        },
    ]
}

/// The rows for editors.
pub fn tools_lookup_rows() -> (r: Vec<Lookup>)
    ensures
        r.deep_view() == tools_lookup_table(),
{
    let r = vec![
        Lookup {
            id: "jetbrains",
            ecosystem: None,
            trigger: Trigger::Field(ProjectField::Names),
            target: Target::Derive(Derive::JetbrainsDirs),
            kind: EntryKind::EditorState,
            tier: EvidenceTier::NameMatch,
            evidence: "JetBrains cache named after {key}",
            label: "{basename}",
            flags: NONE,
        },
    ];
    assert(r@[0]@ =~~= tools_lookup_table()[0]);
    assert(r.deep_view() =~= tools_lookup_table());
    r
}

/// The row for the coding agent.
pub open spec fn agent_lookup_table(a: AgentNames) -> Seq<LookupView> {
    seq![
        LookupView {
            id: a.cli_cache_id,
            ecosystem: Some("agents"),
            trigger: TriggerView::Always,
            target: TargetView::Derive(Derive::ClaudeCliCache),
            kind: EntryKind::AgentState,
            tier: EvidenceTier::Exact,
            evidence: a.cli_cache_label,
            label: a.cli_cache_label,
            flags: NONE,
        },
    ]
}

/// The row for the coding agent.
pub fn agent_lookup_rows(a: AgentNames) -> (r: Vec<Lookup>)
    ensures
        r.deep_view() == agent_lookup_table(a),
{
    let r = vec![
        Lookup {
            id: a.cli_cache_id,
            ecosystem: Some("agents"),
            trigger: Trigger::Always,
            target: Target::Derive(Derive::ClaudeCliCache),
            kind: EntryKind::AgentState,
            tier: EvidenceTier::Exact,
            evidence: a.cli_cache_label,
            label: a.cli_cache_label,
            flags: NONE,
        },
    ];
    assert(r@[0]@ =~~= agent_lookup_table(a)[0]);
    assert(r.deep_view() =~= agent_lookup_table(a));
    r
}

/// All rows that lead from a project to paths.
pub open spec fn lookup_table(a: AgentNames) -> Seq<LookupView> {
    node_lookup_table() + rust_lookup_table() + go_lookup_table() + python_lookup_table() + swift_lookup_table() + brew_lookup_table() + caches_lookup_table() + tools_lookup_table() + agent_lookup_table(a)
}

/// All rows that lead from a project to paths.
pub fn lookup_rows(a: AgentNames) -> (r: Vec<Lookup>)
    ensures
        r.deep_view() == lookup_table(a),
{
    let mut out = node_lookup_rows();
    put_rows(&mut out, rust_lookup_rows());
    put_rows(&mut out, go_lookup_rows());
    put_rows(&mut out, python_lookup_rows());
    put_rows(&mut out, swift_lookup_rows());
    put_rows(&mut out, brew_lookup_rows());
    put_rows(&mut out, caches_lookup_rows());
    put_rows(&mut out, tools_lookup_rows());
    put_rows(&mut out, agent_lookup_rows(a));
    out
}

/// The directories in `DerivedData` that belong to no single project.
pub open spec fn derived_data_caches() -> Seq<&'static str> {
    seq![
        "ModuleCache.noindex",
        "SDKStatCaches.noindex",
        "SymbolCache.noindex",
        "CompilationCache.noindex",
        "SDKExplicitPrecompiledModules",
    ]
}

/// The directories in `DerivedData` that belong to no single project.
pub fn global_derived_data_dirs() -> (r: Vec<&'static str>)
    ensures
        r@ == derived_data_caches(),
{
    let r = vec![
        "ModuleCache.noindex",
        "SDKStatCaches.noindex",
        "SymbolCache.noindex",
        "CompilationCache.noindex",
        "SDKExplicitPrecompiledModules",
    ];
    assert(r@ =~= derived_data_caches());
    r
}

/// The rows for Xcode and for editors that lead from the home directory to projects.
pub open spec fn editor_reverse_table() -> Seq<ReverseLinkView> {
    seq![
        ReverseLinkView {
            id: "derived-data",
            ecosystem: Some("xcode"),
            kind: EntryKind::Xcode,
            tier: EvidenceTier::Exact,
            evidence: "DerivedData WorkspacePath",
            label: "DerivedData {basename}",
            scan: ScanView::Dirs {
                roots: seq!["~/Library/Developer/Xcode/DerivedData"],
                depth: 1,
                skip: derived_data_caches(),
            },
            extract: ExtractView::PlistKey {
                file: "info.plist",
                key: "WorkspacePath",
            },
            matcher: Matcher::PathUnderProject,
            claim: ClaimAt::Entry,
            stale: Some("workspace deleted: {path}"),
            fallback: None,
        },
        ReverseLinkView {
            id: "vscode-workspaces",
            ecosystem: None,
            kind: EntryKind::EditorState,
            tier: EvidenceTier::Exact,
            evidence: "workspace.json",
            label: "VS Code workspace storage",
            scan: ScanView::Dirs {
                roots: seq!["~/Library/Application Support/{Code,Code - Insiders,Cursor,Antigravity,VSCodium}/User/workspaceStorage"],
                depth: 1,
                skip: seq![],
            },
            extract: ExtractView::JsonUri {
                file: "workspace.json",
                keys: seq!["folder", "workspace"],
            },
            matcher: Matcher::PathUnderProject,
            claim: ClaimAt::Entry,
            stale: None,
            fallback: None,
        },
    ]
}

/// The row that leads from the coding agent's sessions to projects.
pub open spec fn agent_reverse_table(a: AgentNames) -> Seq<ReverseLinkView> {
    seq![
        ReverseLinkView {
            id: a.sessions_id,
            ecosystem: Some("agents"),
            kind: EntryKind::AgentState,
            tier: EvidenceTier::Exact,
            evidence: a.session_evidence,
            label: a.sessions_label,
            scan: ScanView::Dirs { roots: seq![a.sessions_root], depth: 1, skip: seq![] },
            extract: ExtractView::JsonlCwd { max_files: 5, head: 65536 },
            matcher: Matcher::PathUnderProject,
            claim: ClaimAt::Entry,
            stale: Some("session cwd no longer exists: {path}"),
            fallback: Some(Fallback::EncodedProjectDir),
        },
    ]
}

/// The other rows that lead from the home directory to projects.
pub open spec fn other_reverse_table() -> Seq<ReverseLinkView> {
    seq![
        ReverseLinkView {
            id: "codex-sessions",
            ecosystem: Some("agents"),
            kind: EntryKind::AgentState,
            tier: EvidenceTier::Exact,
            evidence: "Codex session cwd",
            label: "Codex session",
            scan: ScanView::Files {
                roots: seq!["~/.codex/sessions", "~/.codex/archived_sessions"],
                name: Some("rollout-*.jsonl"),
                cap: 5000,
            },
            extract: ExtractView::JsonlCwd {
                max_files: 1,
                head: 16384,
            },
            matcher: Matcher::PathUnderProject,
            claim: ClaimAt::Entry,
            stale: None,
            fallback: None,
        },
        ReverseLinkView {
            id: "pnpm-store",
            ecosystem: Some("node"),
            kind: EntryKind::PackageCache,
            tier: EvidenceTier::Exact,
            evidence: "pnpm store links this project",
            label: "pnpm store {basename}",
            scan: ScanView::Dirs {
                roots: seq![
                    "~/Library/pnpm/store/*/projects",
                    "~/Library/pnpm/store/*/*/projects",
                    "~/.local/share/pnpm/store/*/projects",
                    "~/.local/share/pnpm/store/*/*/projects",
                    "~/.pnpm-store/*/projects",
                    "~/.pnpm-store/*/*/projects",
                ],
                depth: 0,
                skip: seq![],
            },
            extract: ExtractView::SymlinkTargets { subdir: "" },
            matcher: Matcher::PathUnderProject,
            claim: ClaimAt::Parent,
            stale: None,
            fallback: None,
        },
        ReverseLinkView {
            id: "simulator-containers",
            ecosystem: Some("xcode"),
            kind: EntryKind::Simulator,
            tier: EvidenceTier::Exact,
            evidence: "installed in simulator {device}",
            label: "{bundle_id} on {device}",
            scan: ScanView::Dirs {
                roots: seq![
                    "~/Library/Developer/CoreSimulator/Devices/*/data/Containers/Bundle/Application",
                    "~/Library/Developer/CoreSimulator/Devices/*/data/Containers/Data/Application",
                ],
                depth: 1,
                skip: seq![],
            },
            extract: ExtractView::Fn(Extractor::ContainerBundleId),
            matcher: Matcher::BundleId,
            claim: ClaimAt::Entry,
            stale: None,
            fallback: None,
        },
    ]
}

/// All rows that lead from the home directory to projects.
pub open spec fn reverse_table(a: AgentNames) -> Seq<ReverseLinkView> {
    editor_reverse_table() + agent_reverse_table(a) + other_reverse_table()
}

/// The rows for Xcode and for editors that lead from the home directory to projects.
pub fn editor_reverse_rows() -> (r: Vec<ReverseLink>)
    ensures
        r.deep_view() == editor_reverse_table(),
{
    let r = vec![
        ReverseLink {
            id: "derived-data",
            ecosystem: Some("xcode"),
            kind: EntryKind::Xcode,
            tier: EvidenceTier::Exact,
            evidence: "DerivedData WorkspacePath",
            label: "DerivedData {basename}",
            scan: Scan::Dirs {
                roots: vec!["~/Library/Developer/Xcode/DerivedData"],
                depth: 1,
                skip: global_derived_data_dirs(),
            },
            extract: Extract::PlistKey {
                file: "info.plist",
                key: "WorkspacePath",
            },
            matcher: Matcher::PathUnderProject,
            claim: ClaimAt::Entry,
            stale: Some("workspace deleted: {path}"),
            fallback: None,
        },
        ReverseLink {
            id: "vscode-workspaces",
            ecosystem: None,
            kind: EntryKind::EditorState,
            tier: EvidenceTier::Exact,
            evidence: "workspace.json",
            label: "VS Code workspace storage",
            scan: Scan::Dirs {
                roots: vec!["~/Library/Application Support/{Code,Code - Insiders,Cursor,Antigravity,VSCodium}/User/workspaceStorage"],
                depth: 1,
                skip: vec![],
            },
            extract: Extract::JsonUri {
                file: "workspace.json",
                keys: vec!["folder", "workspace"],
            },
            matcher: Matcher::PathUnderProject,
            claim: ClaimAt::Entry,
            stale: None,
            fallback: None,
        },
    ];
    assert(r@[0]@ =~~= editor_reverse_table()[0]);
    assert(r@[1]@ =~~= editor_reverse_table()[1]);
    assert(r.deep_view() =~= editor_reverse_table());
    r
}

/// The row that leads from the coding agent's sessions to projects.
pub fn agent_reverse_rows(a: AgentNames) -> (r: Vec<ReverseLink>)
    ensures
        r.deep_view() == agent_reverse_table(a),
{
    let r = vec![
        ReverseLink {
            id: a.sessions_id,
            ecosystem: Some("agents"),
            kind: EntryKind::AgentState,
            tier: EvidenceTier::Exact,
            evidence: a.session_evidence,
            label: a.sessions_label,
            scan: Scan::Dirs { roots: vec![a.sessions_root], depth: 1, skip: vec![] },
            extract: Extract::JsonlCwd { max_files: 5, head: 65536 },
            matcher: Matcher::PathUnderProject,
            claim: ClaimAt::Entry,
            stale: Some("session cwd no longer exists: {path}"),
            fallback: Some(Fallback::EncodedProjectDir),
        },
    ];
    assert(r@[0]@ =~~= agent_reverse_table(a)[0]);
    assert(r.deep_view() =~= agent_reverse_table(a));
    r
}

/// The other rows that lead from the home directory to projects.
pub fn other_reverse_rows() -> (r: Vec<ReverseLink>)
    ensures
        r.deep_view() == other_reverse_table(),
{
    let r = vec![
        ReverseLink {
            id: "codex-sessions",
            ecosystem: Some("agents"),
            kind: EntryKind::AgentState,
            tier: EvidenceTier::Exact,
            evidence: "Codex session cwd",
            label: "Codex session",
            scan: Scan::Files {
                roots: vec!["~/.codex/sessions", "~/.codex/archived_sessions"],
                name: Some("rollout-*.jsonl"),
                cap: 5000,
            },
            extract: Extract::JsonlCwd {
                max_files: 1,
                head: 16384,
            },
            matcher: Matcher::PathUnderProject,
            claim: ClaimAt::Entry,
            stale: None,
            fallback: None,
        },
        ReverseLink {
            id: "pnpm-store",
            ecosystem: Some("node"),
            kind: EntryKind::PackageCache,
            tier: EvidenceTier::Exact,
            evidence: "pnpm store links this project",
            label: "pnpm store {basename}",
            scan: Scan::Dirs {
                roots: vec![
                    "~/Library/pnpm/store/*/projects",
                    "~/Library/pnpm/store/*/*/projects",
                    "~/.local/share/pnpm/store/*/projects",
                    "~/.local/share/pnpm/store/*/*/projects",
                    "~/.pnpm-store/*/projects",
                    "~/.pnpm-store/*/*/projects",
                ],
                depth: 0,
                skip: vec![],
            },
            extract: Extract::SymlinkTargets { subdir: "" },
            matcher: Matcher::PathUnderProject,
            claim: ClaimAt::Parent,
            stale: None,
            fallback: None,
        },
        ReverseLink {
            id: "simulator-containers",
            ecosystem: Some("xcode"),
            kind: EntryKind::Simulator,
            tier: EvidenceTier::Exact,
            evidence: "installed in simulator {device}",
            label: "{bundle_id} on {device}",
            scan: Scan::Dirs {
                roots: vec![
                    "~/Library/Developer/CoreSimulator/Devices/*/data/Containers/Bundle/Application",
                    "~/Library/Developer/CoreSimulator/Devices/*/data/Containers/Data/Application",
                ],
                depth: 1,
                skip: vec![],
            },
            extract: Extract::Fn(Extractor::ContainerBundleId),
            matcher: Matcher::BundleId,
            claim: ClaimAt::Entry,
            stale: None,
            fallback: None,
        },
    ];
    assert(r@[0]@ =~~= other_reverse_table()[0]);
    assert(r@[1]@ =~~= other_reverse_table()[1]);
    assert(r@[2]@ =~~= other_reverse_table()[2]);
    assert(r.deep_view() =~= other_reverse_table());
    r
}

/// All rows that lead from the home directory to projects.
pub fn reverse_rows(a: AgentNames) -> (r: Vec<ReverseLink>)
    ensures
        r.deep_view() == reverse_table(a),
{
    let mut out = editor_reverse_rows();
    put_rows(&mut out, agent_reverse_rows(a));
    put_rows(&mut out, other_reverse_rows());
    out
}

/// What belongs to the whole ecosystem of Node.
pub open spec fn node_baseline_table() -> Seq<BaselineView> {
    seq![
        BaselineView {
            ecosystem: "node",
            path: "~/Library/Caches/pnpm/dlx",
            kind: EntryKind::PackageCache,
            label: Label::Static("pnpm dlx cache"),
            evidence: "pnpm ecosystem resource",
            source: Source::Fixed,
            exclude: seq![],
        },
        BaselineView {
            ecosystem: "node",
            path: "~/Library/pnpm/global",
            kind: EntryKind::PackageCache,
            label: Label::Static("pnpm global"),
            evidence: "pnpm ecosystem resource",
            source: Source::Fixed,
            exclude: seq![],
        },
        BaselineView {
            ecosystem: "node",
            path: "~/Library/Caches/pnpm/metadata*",
            kind: EntryKind::PackageCache,
            label: Label::Basename,
            evidence: "pnpm ecosystem resource",
            source: Source::Fixed,
            exclude: seq![],
        },
        BaselineView {
            ecosystem: "node",
            path: "~/Library/Caches/pnpm/v*",
            kind: EntryKind::PackageCache,
            label: Label::Basename,
            evidence: "pnpm ecosystem resource",
            source: Source::Fixed,
            exclude: seq![],
        },
        BaselineView {
            ecosystem: "node",
            path: "~/.npm/_cacache/index-v5",
            kind: EntryKind::PackageCache,
            label: Label::Static("npm cache index"),
            evidence: "node ecosystem resource",
            source: Source::Fixed,
            exclude: seq![],
        },
        BaselineView {
            ecosystem: "node",
            path: "~/.npm/_logs",
            kind: EntryKind::Logs,
            label: Label::Static("npm logs"),
            evidence: "node ecosystem resource",
            source: Source::Fixed,
            exclude: seq![],
        },
        BaselineView {
            ecosystem: "node",
            path: "~/.bun/install/cache",
            kind: EntryKind::PackageCache,
            label: Label::Static("bun cache"),
            evidence: "node ecosystem resource",
            source: Source::Fixed,
            exclude: seq![],
        },
        BaselineView {
            ecosystem: "node",
            path: "",
            kind: EntryKind::Toolchain,
            label: Label::Static("node (Homebrew default)"),
            evidence: "Homebrew default node",
            source: Source::FromFinding {
                scanner: ScannerId::Brew,
                kind: FindingKind::BrewFormula,
                name: "node",
            },
            exclude: seq![],
        },
    ]
}

/// What belongs to the whole ecosystem of Node.
pub fn node_baseline_rows() -> (r: Vec<Baseline>)
    ensures
        r.deep_view() == node_baseline_table(),
{
    let r = vec![
        Baseline {
            ecosystem: "node",
            path: "~/Library/Caches/pnpm/dlx",
            kind: EntryKind::PackageCache,
            label: Label::Static("pnpm dlx cache"),
            evidence: "pnpm ecosystem resource",
            source: Source::Fixed,
            exclude: vec![],
        },
        Baseline {
            ecosystem: "node",
            path: "~/Library/pnpm/global",
            kind: EntryKind::PackageCache,
            label: Label::Static("pnpm global"),
            evidence: "pnpm ecosystem resource",
            source: Source::Fixed,
            exclude: vec![],
        },
        Baseline {
            ecosystem: "node",
            path: "~/Library/Caches/pnpm/metadata*",
            kind: EntryKind::PackageCache,
            label: Label::Basename,
            evidence: "pnpm ecosystem resource",
            source: Source::Fixed,
            exclude: vec![],
        },
        Baseline {
            ecosystem: "node",
            path: "~/Library/Caches/pnpm/v*",
            kind: EntryKind::PackageCache,
            label: Label::Basename,
            evidence: "pnpm ecosystem resource",
            source: Source::Fixed,
            exclude: vec![],
        },
        Baseline {
            ecosystem: "node",
            path: "~/.npm/_cacache/index-v5",
            kind: EntryKind::PackageCache,
            label: Label::Static("npm cache index"),
            evidence: "node ecosystem resource",
            source: Source::Fixed,
            exclude: vec![],
        },
        Baseline {
            ecosystem: "node",
            path: "~/.npm/_logs",
            kind: EntryKind::Logs,
            label: Label::Static("npm logs"),
            evidence: "node ecosystem resource",
            source: Source::Fixed,
            exclude: vec![],
        },
        Baseline {
            ecosystem: "node",
            path: "~/.bun/install/cache",
            kind: EntryKind::PackageCache,
            label: Label::Static("bun cache"),
            evidence: "node ecosystem resource",
            source: Source::Fixed,
            exclude: vec![],
        },
        Baseline {
            ecosystem: "node",
            path: "",
            kind: EntryKind::Toolchain,
            label: Label::Static("node (Homebrew default)"),
            evidence: "Homebrew default node",
            source: Source::FromFinding {
                scanner: ScannerId::Brew,
                kind: FindingKind::BrewFormula,
                name: "node",
            },
            exclude: vec![],
        },
    ];
    assert(r@[0]@ =~~= node_baseline_table()[0]);
    assert(r@[1]@ =~~= node_baseline_table()[1]);
    assert(r@[2]@ =~~= node_baseline_table()[2]);
    assert(r@[3]@ =~~= node_baseline_table()[3]);
    assert(r@[4]@ =~~= node_baseline_table()[4]);
    assert(r@[5]@ =~~= node_baseline_table()[5]);
    assert(r@[6]@ =~~= node_baseline_table()[6]);
    assert(r@[7]@ =~~= node_baseline_table()[7]);
    assert(r.deep_view() =~= node_baseline_table());
    r
}

/// What belongs to the whole ecosystem of Rust.
pub open spec fn rust_baseline_table() -> Seq<BaselineView> {
    seq![
        BaselineView {
            ecosystem: "rust",
            path: "~/.rustup/toolchains/{value}",
            kind: EntryKind::Toolchain,
            label: Label::Basename,
            evidence: "default rustup toolchain",
            source: Source::FromFile {
                file: "~/.rustup/settings.toml",
                parse: FileValue::DefaultToolchain,
            },
            exclude: seq![],
        },
        BaselineView {
            ecosystem: "rust",
            path: "~/.rustup/downloads",
            kind: EntryKind::Toolchain,
            label: Label::Static("rustup downloads"),
            evidence: "rust ecosystem resource",
            source: Source::Fixed,
            exclude: seq![],
        },
        BaselineView {
            ecosystem: "rust",
            path: "~/.rustup/tmp",
            kind: EntryKind::Toolchain,
            label: Label::Static("rustup tmp"),
            evidence: "rust ecosystem resource",
            source: Source::Fixed,
            exclude: seq![],
        },
        BaselineView {
            ecosystem: "rust",
            path: "~/.cargo/registry/index",
            kind: EntryKind::PackageCache,
            label: Label::Static("cargo registry index"),
            evidence: "rust ecosystem resource",
            source: Source::Fixed,
            exclude: seq![],
        },
        BaselineView {
            ecosystem: "rust",
            path: "~/.cargo/bin",
            kind: EntryKind::PackageCache,
            label: Label::Static("cargo bin"),
            evidence: "rust ecosystem resource",
            source: Source::Fixed,
            exclude: seq![],
        },
        BaselineView {
            ecosystem: "rust",
            path: "~/.cargo/git/db",
            kind: EntryKind::PackageCache,
            label: Label::Static("cargo git db"),
            evidence: "rust ecosystem resource",
            source: Source::Fixed,
            exclude: seq![],
        },
    ]
}

/// What belongs to the whole ecosystem of Rust.
pub fn rust_baseline_rows() -> (r: Vec<Baseline>)
    ensures
        r.deep_view() == rust_baseline_table(),
{
    let r = vec![
        Baseline {
            ecosystem: "rust",
            path: "~/.rustup/toolchains/{value}",
            kind: EntryKind::Toolchain,
            label: Label::Basename,
            evidence: "default rustup toolchain",
            source: Source::FromFile {
                file: "~/.rustup/settings.toml",
                parse: FileValue::DefaultToolchain,
            },
            exclude: vec![],
        },
        Baseline {
            ecosystem: "rust",
            path: "~/.rustup/downloads",
            kind: EntryKind::Toolchain,
            label: Label::Static("rustup downloads"),
            evidence: "rust ecosystem resource",
            source: Source::Fixed,
            exclude: vec![],
        },
        Baseline {
            ecosystem: "rust",
            path: "~/.rustup/tmp",
            kind: EntryKind::Toolchain,
            label: Label::Static("rustup tmp"),
            evidence: "rust ecosystem resource",
            source: Source::Fixed,
            exclude: vec![],
        },
        Baseline {
            ecosystem: "rust",
            path: "~/.cargo/registry/index",
            kind: EntryKind::PackageCache,
            label: Label::Static("cargo registry index"),
            evidence: "rust ecosystem resource",
            source: Source::Fixed,
            exclude: vec![],
        },
        Baseline {
            ecosystem: "rust",
            path: "~/.cargo/bin",
            kind: EntryKind::PackageCache,
            label: Label::Static("cargo bin"),
            evidence: "rust ecosystem resource",
            source: Source::Fixed,
            exclude: vec![],
        },
        Baseline {
            ecosystem: "rust",
            path: "~/.cargo/git/db",
            kind: EntryKind::PackageCache,
            label: Label::Static("cargo git db"),
            evidence: "rust ecosystem resource",
            source: Source::Fixed,
            exclude: vec![],
        },
    ];
    assert(r@[0]@ =~~= rust_baseline_table()[0]);
    assert(r@[1]@ =~~= rust_baseline_table()[1]);
    assert(r@[2]@ =~~= rust_baseline_table()[2]);
    assert(r@[3]@ =~~= rust_baseline_table()[3]);
    assert(r@[4]@ =~~= rust_baseline_table()[4]);
    assert(r@[5]@ =~~= rust_baseline_table()[5]);
    assert(r.deep_view() =~= rust_baseline_table());
    r
}

/// What belongs to the whole ecosystem of Go.
pub open spec fn go_baseline_table() -> Seq<BaselineView> {
    seq![
        BaselineView {
            ecosystem: "go",
            path: "~/Library/Caches/go-build",
            kind: EntryKind::Cache,
            label: Label::Static("go-build"),
            evidence: "Go build cache",
            source: Source::Fixed,
            exclude: seq![],
        },
    ]
}

/// What belongs to the whole ecosystem of Go.
pub fn go_baseline_rows() -> (r: Vec<Baseline>)
    ensures
        r.deep_view() == go_baseline_table(),
{
    let r = vec![
        Baseline {
            ecosystem: "go",
            path: "~/Library/Caches/go-build",
            kind: EntryKind::Cache,
            label: Label::Static("go-build"),
            evidence: "Go build cache",
            source: Source::Fixed,
            exclude: vec![],
        },
    ];
    assert(r@[0]@ =~~= go_baseline_table()[0]);
    assert(r.deep_view() =~= go_baseline_table());
    r
}

/// What belongs to the whole ecosystem of Python.
pub open spec fn python_baseline_table() -> Seq<BaselineView> {
    seq![
        BaselineView {
            ecosystem: "python",
            path: "~/Library/Caches/pip",
            kind: EntryKind::Cache,
            label: Label::Static("pip cache"),
            evidence: "python ecosystem cache",
            source: Source::Fixed,
            exclude: seq![],
        },
        BaselineView {
            ecosystem: "python",
            path: "~/.cache/pip",
            kind: EntryKind::Cache,
            label: Label::Static("pip cache"),
            evidence: "python ecosystem cache",
            source: Source::Fixed,
            exclude: seq![],
        },
        BaselineView {
            ecosystem: "python",
            path: "~/Library/Application Support/virtualenv",
            kind: EntryKind::Cache,
            label: Label::Static("virtualenv support"),
            evidence: "python ecosystem cache",
            source: Source::Fixed,
            exclude: seq![],
        },
        BaselineView {
            ecosystem: "python",
            path: "~/.local/pipx",
            kind: EntryKind::Cache,
            label: Label::Static("pipx"),
            evidence: "python ecosystem cache",
            source: Source::Fixed,
            exclude: seq![],
        },
    ]
}

/// What belongs to the whole ecosystem of Python.
pub fn python_baseline_rows() -> (r: Vec<Baseline>)
    ensures
        r.deep_view() == python_baseline_table(),
{
    let r = vec![
        Baseline {
            ecosystem: "python",
            path: "~/Library/Caches/pip",
            kind: EntryKind::Cache,
            label: Label::Static("pip cache"),
            evidence: "python ecosystem cache",
            source: Source::Fixed,
            exclude: vec![],
        },
        Baseline {
            ecosystem: "python",
            path: "~/.cache/pip",
            kind: EntryKind::Cache,
            label: Label::Static("pip cache"),
            evidence: "python ecosystem cache",
            source: Source::Fixed,
            exclude: vec![],
        },
        Baseline {
            ecosystem: "python",
            path: "~/Library/Application Support/virtualenv",
            kind: EntryKind::Cache,
            label: Label::Static("virtualenv support"),
            evidence: "python ecosystem cache",
            source: Source::Fixed,
            exclude: vec![],
        },
        Baseline {
            ecosystem: "python",
            path: "~/.local/pipx",
            kind: EntryKind::Cache,
            label: Label::Static("pipx"),
            evidence: "python ecosystem cache",
            source: Source::Fixed,
            exclude: vec![],
        },
    ];
    assert(r@[0]@ =~~= python_baseline_table()[0]);
    assert(r@[1]@ =~~= python_baseline_table()[1]);
    assert(r@[2]@ =~~= python_baseline_table()[2]);
    assert(r@[3]@ =~~= python_baseline_table()[3]);
    assert(r.deep_view() =~= python_baseline_table());
    r
}

/// What belongs to the whole ecosystem of Swift.
pub open spec fn swift_baseline_table() -> Seq<BaselineView> {
    seq![
        BaselineView {
            ecosystem: "swift",
            path: "~/Library/Caches/org.swift.swiftpm/manifests",
            kind: EntryKind::PackageCache,
            label: Label::Static("SwiftPM manifests"),
            evidence: "SwiftPM manifest cache",
            source: Source::Fixed,
            exclude: seq![],
        },
        BaselineView {
            ecosystem: "swift",
            path: "~/Library/org.swift.swiftpm",
            kind: EntryKind::PackageCache,
            label: Label::Static("SwiftPM"),
            evidence: "SwiftPM shared state",
            source: Source::Fixed,
            exclude: seq![],
        },
    ]
}

/// What belongs to the whole ecosystem of Swift.
pub fn swift_baseline_rows() -> (r: Vec<Baseline>)
    ensures
        r.deep_view() == swift_baseline_table(),
{
    let r = vec![
        Baseline {
            ecosystem: "swift",
            path: "~/Library/Caches/org.swift.swiftpm/manifests",
            kind: EntryKind::PackageCache,
            label: Label::Static("SwiftPM manifests"),
            evidence: "SwiftPM manifest cache",
            source: Source::Fixed,
            exclude: vec![],
        },
        Baseline {
            ecosystem: "swift",
            path: "~/Library/org.swift.swiftpm",
            kind: EntryKind::PackageCache,
            label: Label::Static("SwiftPM"),
            evidence: "SwiftPM shared state",
            source: Source::Fixed,
            exclude: vec![],
        },
    ];
    assert(r@[0]@ =~~= swift_baseline_table()[0]);
    assert(r@[1]@ =~~= swift_baseline_table()[1]);
    assert(r.deep_view() =~= swift_baseline_table());
    r
}

/// What belongs to the whole ecosystem of Xcode.
pub open spec fn xcode_baseline_table() -> Seq<BaselineView> {
    seq![
        BaselineView {
            ecosystem: "xcode",
            path: "~/Library/Developer/Xcode/DerivedData/ModuleCache.noindex",
            kind: EntryKind::Xcode,
            label: Label::Static("ModuleCache.noindex"),
            evidence: "Xcode module/SDK cache",
            source: Source::Fixed,
            exclude: seq![],
        },
        BaselineView {
            ecosystem: "xcode",
            path: "~/Library/Developer/Xcode/DerivedData/SDKStatCaches.noindex",
            kind: EntryKind::Xcode,
            label: Label::Static("SDKStatCaches.noindex"),
            evidence: "Xcode module/SDK cache",
            source: Source::Fixed,
            exclude: seq![],
        },
        BaselineView {
            ecosystem: "xcode",
            path: "~/Library/Developer/Xcode/DerivedData/SymbolCache.noindex",
            kind: EntryKind::Xcode,
            label: Label::Static("SymbolCache.noindex"),
            evidence: "Xcode module/SDK cache",
            source: Source::Fixed,
            exclude: seq![],
        },
        BaselineView {
            ecosystem: "xcode",
            path: "~/Library/Developer/Xcode/DerivedData/CompilationCache.noindex",
            kind: EntryKind::Xcode,
            label: Label::Static("CompilationCache.noindex"),
            evidence: "Xcode module/SDK cache",
            source: Source::Fixed,
            exclude: seq![],
        },
        BaselineView {
            ecosystem: "xcode",
            path: "~/Library/Developer/Xcode/DerivedData/SDKExplicitPrecompiledModules",
            kind: EntryKind::Xcode,
            label: Label::Static("SDKExplicitPrecompiledModules"),
            evidence: "Xcode module/SDK cache",
            source: Source::Fixed,
            exclude: seq![],
        },
        BaselineView {
            ecosystem: "xcode",
            path: "~/Library/Developer/Xcode/UserData",
            kind: EntryKind::Xcode,
            label: Label::Static("Xcode UserData"),
            evidence: "ecosystem default",
            source: Source::Fixed,
            exclude: seq![],
        },
        BaselineView {
            ecosystem: "xcode",
            path: "~/Library/Developer/CoreSimulator/Caches",
            kind: EntryKind::Simulator,
            label: Label::Static("Simulator caches"),
            evidence: "ecosystem default",
            source: Source::Fixed,
            exclude: seq![],
        },
        BaselineView {
            ecosystem: "xcode",
            path: "~/Library/Developer/XCPGDevices",
            kind: EntryKind::Simulator,
            label: Label::Static("XCPG devices"),
            evidence: "ecosystem default",
            source: Source::Fixed,
            exclude: seq![],
        },
        BaselineView {
            ecosystem: "xcode",
            path: "~/Library/Developer/CoreSimulator/Images",
            kind: EntryKind::Simulator,
            label: Label::Static("Simulator images"),
            evidence: "ecosystem default",
            source: Source::Fixed,
            exclude: seq![],
        },
        BaselineView {
            ecosystem: "xcode",
            path: "/Library/Developer/CoreSimulator/Volumes",
            kind: EntryKind::Simulator,
            label: Label::Static("Simulator runtimes"),
            evidence: "ecosystem default",
            source: Source::Fixed,
            exclude: seq![],
        },
        BaselineView {
            ecosystem: "xcode",
            path: "~/Library/Developer/Xcode/*DeviceSupport",
            kind: EntryKind::Xcode,
            label: Label::Basename,
            evidence: "Xcode device support",
            source: Source::Fixed,
            exclude: seq![],
        },
        BaselineView {
            ecosystem: "xcode",
            path: "~/Library/Developer/CoreSimulator/Devices/*",
            kind: EntryKind::Simulator,
            label: Label::Fn(LabelFn::SimulatorDevice),
            evidence: "simulator device",
            source: Source::Fixed,
            exclude: seq![],
        },
    ]
}

/// What belongs to the whole ecosystem of Xcode.
pub fn xcode_baseline_rows() -> (r: Vec<Baseline>)
    ensures
        r.deep_view() == xcode_baseline_table(),
{
    let r = vec![
        Baseline {
            ecosystem: "xcode",
            path: "~/Library/Developer/Xcode/DerivedData/ModuleCache.noindex",
            kind: EntryKind::Xcode,
            label: Label::Static("ModuleCache.noindex"),
            evidence: "Xcode module/SDK cache",
            source: Source::Fixed,
            exclude: vec![],
        },
        Baseline {
            ecosystem: "xcode",
            path: "~/Library/Developer/Xcode/DerivedData/SDKStatCaches.noindex",
            kind: EntryKind::Xcode,
            label: Label::Static("SDKStatCaches.noindex"),
            evidence: "Xcode module/SDK cache",
            source: Source::Fixed,
            exclude: vec![],
        },
        Baseline {
            ecosystem: "xcode",
            path: "~/Library/Developer/Xcode/DerivedData/SymbolCache.noindex",
            kind: EntryKind::Xcode,
            label: Label::Static("SymbolCache.noindex"),
            evidence: "Xcode module/SDK cache",
            source: Source::Fixed,
            exclude: vec![],
        },
        Baseline {
            ecosystem: "xcode",
            path: "~/Library/Developer/Xcode/DerivedData/CompilationCache.noindex",
            kind: EntryKind::Xcode,
            label: Label::Static("CompilationCache.noindex"),
            evidence: "Xcode module/SDK cache",
            source: Source::Fixed,
            exclude: vec![],
        },
        Baseline {
            ecosystem: "xcode",
            path: "~/Library/Developer/Xcode/DerivedData/SDKExplicitPrecompiledModules",
            kind: EntryKind::Xcode,
            label: Label::Static("SDKExplicitPrecompiledModules"),
            evidence: "Xcode module/SDK cache",
            source: Source::Fixed,
            exclude: vec![],
        },
        Baseline {
            ecosystem: "xcode",
            path: "~/Library/Developer/Xcode/UserData",
            kind: EntryKind::Xcode,
            label: Label::Static("Xcode UserData"),
            evidence: "ecosystem default",
            source: Source::Fixed,
            exclude: vec![],
        },
        Baseline {
            ecosystem: "xcode",
            path: "~/Library/Developer/CoreSimulator/Caches",
            kind: EntryKind::Simulator,
            label: Label::Static("Simulator caches"),
            evidence: "ecosystem default",
            source: Source::Fixed,
            exclude: vec![],
        },
        Baseline {
            ecosystem: "xcode",
            path: "~/Library/Developer/XCPGDevices",
            kind: EntryKind::Simulator,
            label: Label::Static("XCPG devices"),
            evidence: "ecosystem default",
            source: Source::Fixed,
            exclude: vec![],
        },
        Baseline {
            ecosystem: "xcode",
            path: "~/Library/Developer/CoreSimulator/Images",
            kind: EntryKind::Simulator,
            label: Label::Static("Simulator images"),
            evidence: "ecosystem default",
            source: Source::Fixed,
            exclude: vec![],
        },
        Baseline {
            ecosystem: "xcode",
            path: "/Library/Developer/CoreSimulator/Volumes",
            kind: EntryKind::Simulator,
            label: Label::Static("Simulator runtimes"),
            evidence: "ecosystem default",
            source: Source::Fixed,
            exclude: vec![],
        },
        Baseline {
            ecosystem: "xcode",
            path: "~/Library/Developer/Xcode/*DeviceSupport",
            kind: EntryKind::Xcode,
            label: Label::Basename,
            evidence: "Xcode device support",
            source: Source::Fixed,
            exclude: vec![],
        },
        Baseline {
            ecosystem: "xcode",
            path: "~/Library/Developer/CoreSimulator/Devices/*",
            kind: EntryKind::Simulator,
            label: Label::Fn(LabelFn::SimulatorDevice),
            evidence: "simulator device",
            source: Source::Fixed,
            exclude: vec![],
        },
    ];
    assert(r@[0]@ =~~= xcode_baseline_table()[0]);
    assert(r@[1]@ =~~= xcode_baseline_table()[1]);
    assert(r@[2]@ =~~= xcode_baseline_table()[2]);
    assert(r@[3]@ =~~= xcode_baseline_table()[3]);
    assert(r@[4]@ =~~= xcode_baseline_table()[4]);
    assert(r@[5]@ =~~= xcode_baseline_table()[5]);
    assert(r@[6]@ =~~= xcode_baseline_table()[6]);
    assert(r@[7]@ =~~= xcode_baseline_table()[7]);
    assert(r@[8]@ =~~= xcode_baseline_table()[8]);
    assert(r@[9]@ =~~= xcode_baseline_table()[9]);
    assert(r@[10]@ =~~= xcode_baseline_table()[10]);
    assert(r@[11]@ =~~= xcode_baseline_table()[11]);
    assert(r.deep_view() =~= xcode_baseline_table());
    r
}

/// What the coding agent keeps for all projects.
pub open spec fn agent_baseline_table(a: AgentNames) -> Seq<BaselineView> {
    seq![
        BaselineView {
            ecosystem: "agents",
            path: a.state_pattern,
            kind: EntryKind::AgentState,
            label: Label::Fn(LabelFn::ClaudeState(a.title)),
            evidence: a.state_evidence,
            source: Source::Fixed,
            exclude: seq!["projects"],
        },
    ]
}

/// What the coding agent keeps for all projects.
pub fn agent_baseline_rows(a: AgentNames) -> (r: Vec<Baseline>)
    ensures
        r.deep_view() == agent_baseline_table(a),
{
    let r = vec![
        Baseline {
            ecosystem: "agents",
            path: a.state_pattern,
            kind: EntryKind::AgentState,
            label: Label::Fn(LabelFn::ClaudeState(a.title)),
            evidence: a.state_evidence,
            source: Source::Fixed,
            exclude: vec!["projects"],
        },
    ];
    assert(r@[0]@ =~~= agent_baseline_table(a)[0]);
    assert(r.deep_view() =~= agent_baseline_table(a));
    r
}

/// What Codex keeps for all projects.
pub open spec fn agents_baseline_table() -> Seq<BaselineView> {
    seq![
        BaselineView {
            ecosystem: "agents",
            path: "~/.codex/*.sqlite*",
            kind: EntryKind::AgentState,
            label: Label::Basename,
            evidence: "Codex state",
            source: Source::Fixed,
            exclude: seq![],
        },
        BaselineView {
            ecosystem: "agents",
            path: "~/.codex/logs*",
            kind: EntryKind::AgentState,
            label: Label::Basename,
            evidence: "Codex state",
            source: Source::Fixed,
            exclude: seq![],
        },
    ]
}

/// What Codex keeps for all projects.
pub fn agents_baseline_rows() -> (r: Vec<Baseline>)
    ensures
        r.deep_view() == agents_baseline_table(),
{
    let r = vec![
        Baseline {
            ecosystem: "agents",
            path: "~/.codex/*.sqlite*",
            kind: EntryKind::AgentState,
            label: Label::Basename,
            evidence: "Codex state",
            source: Source::Fixed,
            exclude: vec![],
        },
        Baseline {
            ecosystem: "agents",
            path: "~/.codex/logs*",
            kind: EntryKind::AgentState,
            label: Label::Basename,
            evidence: "Codex state",
            source: Source::Fixed,
            exclude: vec![],
        },
    ];
    assert(r@[0]@ =~~= agents_baseline_table()[0]);
    assert(r@[1]@ =~~= agents_baseline_table()[1]);
    assert(r.deep_view() =~= agents_baseline_table());
    r
}

/// What belongs to the whole ecosystem of Docker.
pub open spec fn docker_baseline_table() -> Seq<BaselineView> {
    seq![
        BaselineView {
            ecosystem: "docker",
            path: "~/Library/Containers/com.docker.docker",
            kind: EntryKind::Docker,
            label: Label::Static("Docker Desktop VM disk (allocated)"),
            evidence: "Docker Desktop VM disk",
            source: Source::Fixed,
            exclude: seq![],
        },
    ]
}

/// What belongs to the whole ecosystem of Docker.
pub fn docker_baseline_rows() -> (r: Vec<Baseline>)
    ensures
        r.deep_view() == docker_baseline_table(),
{
    let r = vec![
        Baseline {
            ecosystem: "docker",
            path: "~/Library/Containers/com.docker.docker",
            kind: EntryKind::Docker,
            label: Label::Static("Docker Desktop VM disk (allocated)"),
            evidence: "Docker Desktop VM disk",
            source: Source::Fixed,
            exclude: vec![],
        },
    ];
    assert(r@[0]@ =~~= docker_baseline_table()[0]);
    assert(r.deep_view() =~= docker_baseline_table());
    r
}

/// What belongs to whole ecosystems.
pub open spec fn baseline_table(a: AgentNames) -> Seq<BaselineView> {
    node_baseline_table() + rust_baseline_table() + go_baseline_table() + python_baseline_table() + swift_baseline_table() + xcode_baseline_table() + agent_baseline_table(a) + agents_baseline_table() + docker_baseline_table()
}

/// What belongs to whole ecosystems.
pub fn baseline_rows(a: AgentNames) -> (r: Vec<Baseline>)
    ensures
        r.deep_view() == baseline_table(a),
{
    let mut out = node_baseline_rows();
    put_rows(&mut out, rust_baseline_rows());
    put_rows(&mut out, go_baseline_rows());
    put_rows(&mut out, python_baseline_rows());
    put_rows(&mut out, swift_baseline_rows());
    put_rows(&mut out, xcode_baseline_rows());
    put_rows(&mut out, agent_baseline_rows(a));
    put_rows(&mut out, agents_baseline_rows());
    put_rows(&mut out, docker_baseline_rows());
    out
}

} // verus!
