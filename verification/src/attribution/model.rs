//! What a resolver claims about a path, what accounting turns claims into, and what resolvers
//! read from.

use vstd::prelude::*;

use crate::attribution::bus::Snapshot;
use crate::attribution::projects::resolvers::derive::{NpmEntry, NpmEntryView};
use crate::disk::{Disk, WantView};
use crate::fspath::{copy_strings, FilePath};
use crate::scan::{DirTree, Finding, FindingId, FindingKind, FindingView, ScannerId, TreeView};
use crate::text::{chars_of, lower_text, lowered, same, string_of, trim, trimmed};

verus! {

broadcast use crate::disk::group_asks;

/// The owner of a claim that says: this was looked at, and nothing owns it.
pub const UNATTRIBUTED_OWNER: &'static str = "unattributed";

/// The owner of a claim that belongs to a whole ecosystem rather than to one project or app.
pub const BASELINE_OWNER: &'static str = "baseline";

/// Which lens a set of footprints belongs to.
#[derive(Clone, Copy, Debug, PartialEq, Eq, PartialOrd, Ord, Hash, Structural)]
pub enum Axis {
    Projects,
    AppStorage,
}

impl Axis {
    /// Every axis.
    pub fn all() -> (r: Vec<Axis>)
        ensures
            r@ == seq![Axis::Projects, Axis::AppStorage],
    {
        let r = vec![Axis::Projects, Axis::AppStorage];
        assert(r@ =~= seq![Axis::Projects, Axis::AppStorage]);
        r
    }

    /// How the axis is called on screen.
    pub fn label(self) -> (r: &'static str)
        ensures
            r@ == (match self {
                Axis::Projects => "Projects"@,
                Axis::AppStorage => "App Storage"@,
            }),
    {
        match self {
            Axis::Projects => "Projects",
            Axis::AppStorage => "App Storage",
        }
    }

    /// How the axis is called on the command line.
    pub open spec fn spec_slug(self) -> Seq<char> {
        match self {
            Axis::Projects => "projects"@,
            Axis::AppStorage => "apps"@,
        }
    }

    /// How the axis is called on the command line.
    pub fn slug(self) -> (r: &'static str)
        ensures
            r@ == self.spec_slug(),
    {
        match self {
            Axis::Projects => "projects",
            Axis::AppStorage => "apps",
        }
    }

    /// The axis that a command-line value names: the slug, or another common spelling, in any
    /// case and with white space around it.
    pub open spec fn named(s: Seq<char>) -> Option<Axis> {
        let w = lowered(trim(s));
        if w == "projects"@ || w == "project"@ {
            Some(Axis::Projects)
        } else if w == "apps"@ || w == "app"@ || w == "app_storage"@ || w == "appstorage"@ {
            Some(Axis::AppStorage)
        } else {
            None
        }
    }

    /// The axis that a command-line value names.
    pub fn parse(s: &str) -> (r: Option<Axis>)
        ensures
            r == Axis::named(s@),
    {
        let c = chars_of(s);
        let low = lower_text(trimmed(c.as_slice()));
        let w = string_of(low.as_slice());
        if same(w.as_str(), "projects") || same(w.as_str(), "project") {
            Some(Axis::Projects)
        } else if same(w.as_str(), "apps") || same(w.as_str(), "app") || same(
            w.as_str(),
            "app_storage",
        ) || same(w.as_str(), "appstorage") {
            Some(Axis::AppStorage)
        } else {
            None
        }
    }

    /// The section that shows the axis.
    pub open spec fn spec_scanner(self) -> ScannerId {
        match self {
            Axis::Projects => ScannerId::Projects,
            Axis::AppStorage => ScannerId::AppStorage,
        }
    }

    /// The section that shows the axis.
    pub fn scanner(self) -> (r: ScannerId)
        ensures
            r == self.spec_scanner(),
    {
        match self {
            Axis::Projects => ScannerId::Projects,
            Axis::AppStorage => ScannerId::AppStorage,
        }
    }

    /// The kind of the finding that stands for an owner.
    pub open spec fn spec_finding_kind(self) -> FindingKind {
        match self {
            Axis::Projects => FindingKind::Project,
            Axis::AppStorage => FindingKind::AppOwner,
        }
    }

    /// The kind of the finding that stands for an owner.
    pub fn finding_kind(self) -> (r: FindingKind)
        ensures
            r == self.spec_finding_kind(),
    {
        match self {
            Axis::Projects => FindingKind::Project,
            Axis::AppStorage => FindingKind::AppOwner,
        }
    }

    /// The kind of the findings that stand for the baseline, the unattributed rest and the
    /// coverage.
    pub open spec fn spec_bucket_kind(self) -> FindingKind {
        match self {
            Axis::Projects => FindingKind::ProjectBucket,
            Axis::AppStorage => FindingKind::AppStorageBucket,
        }
    }

    /// The kind of the findings that stand for the baseline, the unattributed rest and the
    /// coverage.
    pub fn bucket_kind(self) -> (r: FindingKind)
        ensures
            r == self.spec_bucket_kind(),
    {
        match self {
            Axis::Projects => FindingKind::ProjectBucket,
            Axis::AppStorage => FindingKind::AppStorageBucket,
        }
    }
}

/// An axis's slug names the axis.
pub proof fn law_axis_slug_round_trips(axis: Axis)
    ensures
        Axis::named(axis.spec_slug()) == Some(axis),
{
    reveal_strlit("projects");
    reveal_strlit("project");
    reveal_strlit("apps");
    let s = axis.spec_slug();
    reveal_with_fuel(crate::text::span, 2);
    assert(trim(s) =~= s) by {
        assert(crate::text::span(s, crate::text::spaces()) == 0);
        assert(s.skip(0) =~= s);
        reveal_with_fuel(crate::text::trim_end_where, 1);
    }
    assert(lowered(s) =~= s);
}

/// What sort of thing owns a footprint.
#[derive(Clone, Copy, Debug, PartialEq, Eq, Hash, Structural)]
pub enum OwnerKind {
    Project,
    App,
    Formula,
    Homebrew,
    Tool,
    /// What a whole ecosystem shares.
    Baseline,
    /// What could not be linked to anything.
    Unattributed,
}

/// How an owner's kind is called on screen.
pub open spec fn owner_kind_label(k: OwnerKind) -> Seq<char> {
    match k {
        OwnerKind::Project => "Project"@,
        OwnerKind::App => "App"@,
        OwnerKind::Formula => "Formula"@,
        OwnerKind::Homebrew => "Homebrew"@,
        OwnerKind::Tool => "Tool"@,
        OwnerKind::Baseline => "Baseline"@,
        OwnerKind::Unattributed => "Unattributed"@,
    }
}

impl OwnerKind {
    /// How the kind is called on screen.
    pub fn label(self) -> (r: &'static str)
        ensures
            r@ == owner_kind_label(self),
    {
        match self {
            OwnerKind::Project => "Project",
            OwnerKind::App => "App",
            OwnerKind::Formula => "Formula",
            OwnerKind::Homebrew => "Homebrew",
            OwnerKind::Tool => "Tool",
            OwnerKind::Baseline => "Baseline",
            OwnerKind::Unattributed => "Unattributed",
        }
    }
}

/// One row's identity.
#[derive(Clone, Debug, PartialEq, Eq)]
pub struct Owner {
    /// A project's root path, an app's bundle id, `formula:<name>`, `tool:<name>` or `homebrew`.
    pub key: String,
    pub kind: OwnerKind,
    pub name: String,
    pub path: Option<FilePath>,
}

/// One row's identity, as a value.
#[verifier::ext_equal]
pub struct OwnerView {
    pub key: Seq<char>,
    pub kind: OwnerKind,
    pub name: Seq<char>,
    pub path: Option<Seq<Seq<char>>>,
}

impl View for Owner {
    type V = OwnerView;

    open spec fn view(&self) -> OwnerView {
        OwnerView { key: self.key@, kind: self.kind, name: self.name@, path: self.path.deep_view() }
    }
}

impl DeepView for Owner {
    type V = OwnerView;

    open spec fn deep_view(&self) -> OwnerView {
        self@
    }
}

/// The same optional path once more.
pub fn copy_opt_path(p: &Option<FilePath>) -> (r: Option<FilePath>)
    ensures
        r.deep_view() == p.deep_view(),
{
    match p {
        Some(x) => Some(x.copy()),
        None => None,
    }
}

impl Owner {
    /// The same owner once more.
    pub fn copy(&self) -> (r: Owner)
        ensures
            r@ == self@,
    {
        Owner {
            key: self.key.clone(),
            kind: self.kind,
            name: self.name.clone(),
            path: copy_opt_path(&self.path),
        }
    }
}

/// What resource an entry stands for.
#[derive(Clone, Copy, Debug, PartialEq, Eq, Hash, Structural)]
pub enum EntryKind {
    WorkingTree,
    Artifacts,
    Worktree,
    PackageCache,
    Toolchain,
    Xcode,
    Simulator,
    Docker,
    AgentState,
    EditorState,
    ProjectCache,
    AppBundle,
    Container,
    GroupContainer,
    AppSupport,
    Cache,
    Preferences,
    Logs,
    WebData,
    SavedState,
    DotDir,
    Data,
    Other,
}

/// How an entry's kind is called on screen.
pub open spec fn entry_kind_label(k: EntryKind) -> Seq<char> {
    match k {
        EntryKind::WorkingTree => "Working tree"@,
        EntryKind::Artifacts => "Artifacts"@,
        EntryKind::Worktree => "Worktree"@,
        EntryKind::PackageCache => "Package cache"@,
        EntryKind::Toolchain => "Toolchain"@,
        EntryKind::Xcode => "Xcode"@,
        EntryKind::Simulator => "Simulator"@,
        EntryKind::Docker => "Docker"@,
        EntryKind::AgentState => "Agent state"@,
        EntryKind::EditorState => "Editor state"@,
        EntryKind::ProjectCache => "Project cache"@,
        EntryKind::AppBundle => "App bundle"@,
        EntryKind::Container => "Container"@,
        EntryKind::GroupContainer => "Group container"@,
        EntryKind::AppSupport => "App support"@,
        EntryKind::Cache => "Cache"@,
        EntryKind::Preferences => "Preferences"@,
        EntryKind::Logs => "Logs"@,
        EntryKind::WebData => "Web data"@,
        EntryKind::SavedState => "Saved state"@,
        EntryKind::DotDir => "Dot dir"@,
        EntryKind::Data => "Data"@,
        EntryKind::Other => "Other"@,
    }
}

/// The place of a kind in the list of all kinds.
pub open spec fn kind_place(k: EntryKind) -> int {
    match k {
        EntryKind::WorkingTree => 0,
        EntryKind::Artifacts => 1,
        EntryKind::Worktree => 2,
        EntryKind::PackageCache => 3,
        EntryKind::Toolchain => 4,
        EntryKind::Xcode => 5,
        EntryKind::Simulator => 6,
        EntryKind::Docker => 7,
        EntryKind::AgentState => 8,
        EntryKind::EditorState => 9,
        EntryKind::ProjectCache => 10,
        EntryKind::AppBundle => 11,
        EntryKind::Container => 12,
        EntryKind::GroupContainer => 13,
        EntryKind::AppSupport => 14,
        EntryKind::Cache => 15,
        EntryKind::Preferences => 16,
        EntryKind::Logs => 17,
        EntryKind::WebData => 18,
        EntryKind::SavedState => 19,
        EntryKind::DotDir => 20,
        EntryKind::Data => 21,
        EntryKind::Other => 22,
    }
}

impl EntryKind {
    /// Every kind, each at its place.
    pub fn all() -> (r: Vec<EntryKind>)
        ensures
            r.len() == 23,
            forall|k: EntryKind| 0 <= #[trigger] kind_place(k) < r.len() && r@[kind_place(k)] == k,
    {
        vec![
            EntryKind::WorkingTree,
            EntryKind::Artifacts,
            EntryKind::Worktree,
            EntryKind::PackageCache,
            EntryKind::Toolchain,
            EntryKind::Xcode,
            EntryKind::Simulator,
            EntryKind::Docker,
            EntryKind::AgentState,
            EntryKind::EditorState,
            EntryKind::ProjectCache,
            EntryKind::AppBundle,
            EntryKind::Container,
            EntryKind::GroupContainer,
            EntryKind::AppSupport,
            EntryKind::Cache,
            EntryKind::Preferences,
            EntryKind::Logs,
            EntryKind::WebData,
            EntryKind::SavedState,
            EntryKind::DotDir,
            EntryKind::Data,
            EntryKind::Other,
        ]
    }

    /// How the kind is called on screen.
    pub fn label(self) -> (r: &'static str)
        ensures
            r@ == entry_kind_label(self),
    {
        match self {
            EntryKind::WorkingTree => "Working tree",
            EntryKind::Artifacts => "Artifacts",
            EntryKind::Worktree => "Worktree",
            EntryKind::PackageCache => "Package cache",
            EntryKind::Toolchain => "Toolchain",
            EntryKind::Xcode => "Xcode",
            EntryKind::Simulator => "Simulator",
            EntryKind::Docker => "Docker",
            EntryKind::AgentState => "Agent state",
            EntryKind::EditorState => "Editor state",
            EntryKind::ProjectCache => "Project cache",
            EntryKind::AppBundle => "App bundle",
            EntryKind::Container => "Container",
            EntryKind::GroupContainer => "Group container",
            EntryKind::AppSupport => "App support",
            EntryKind::Cache => "Cache",
            EntryKind::Preferences => "Preferences",
            EntryKind::Logs => "Logs",
            EntryKind::WebData => "Web data",
            EntryKind::SavedState => "Saved state",
            EntryKind::DotDir => "Dot dir",
            EntryKind::Data => "Data",
            EntryKind::Other => "Other",
        }
    }

    /// The place of the kind in the list of all kinds.
    pub fn place(self) -> (r: usize)
        ensures
            r == kind_place(self),
            r < 23,
    {
        match self {
            EntryKind::WorkingTree => 0,
            EntryKind::Artifacts => 1,
            EntryKind::Worktree => 2,
            EntryKind::PackageCache => 3,
            EntryKind::Toolchain => 4,
            EntryKind::Xcode => 5,
            EntryKind::Simulator => 6,
            EntryKind::Docker => 7,
            EntryKind::AgentState => 8,
            EntryKind::EditorState => 9,
            EntryKind::ProjectCache => 10,
            EntryKind::AppBundle => 11,
            EntryKind::Container => 12,
            EntryKind::GroupContainer => 13,
            EntryKind::AppSupport => 14,
            EntryKind::Cache => 15,
            EntryKind::Preferences => 16,
            EntryKind::Logs => 17,
            EntryKind::WebData => 18,
            EntryKind::SavedState => 19,
            EntryKind::DotDir => 20,
            EntryKind::Data => 21,
            EntryKind::Other => 22,
        }
    }
}

/// How sure the link between a path and an owner is, the surest first.
#[derive(Clone, Copy, Debug, PartialEq, Eq, PartialOrd, Ord, Hash, Structural)]
pub enum EvidenceTier {
    Exact,
    NameMatch,
    Observed,
    EcosystemDefault,
    Curated,
}

/// The place of a tier, from the surest on.
pub open spec fn tier_rank(t: EvidenceTier) -> int {
    match t {
        EvidenceTier::Exact => 0,
        EvidenceTier::NameMatch => 1,
        EvidenceTier::Observed => 2,
        EvidenceTier::EcosystemDefault => 3,
        EvidenceTier::Curated => 4,
    }
}

/// How a tier is called on screen.
pub open spec fn tier_label(t: EvidenceTier) -> Seq<char> {
    match t {
        EvidenceTier::Exact => "exact"@,
        EvidenceTier::NameMatch => "name match"@,
        EvidenceTier::Observed => "observed"@,
        EvidenceTier::EcosystemDefault => "ecosystem default"@,
        EvidenceTier::Curated => "curated"@,
    }
}

impl EvidenceTier {
    /// How the tier is called on screen.
    pub fn label(self) -> (r: &'static str)
        ensures
            r@ == tier_label(self),
    {
        match self {
            EvidenceTier::Exact => "exact",
            EvidenceTier::NameMatch => "name match",
            EvidenceTier::Observed => "observed",
            EvidenceTier::EcosystemDefault => "ecosystem default",
            EvidenceTier::Curated => "curated",
        }
    }

    /// The place of the tier, from the surest on.
    pub fn rank(self) -> (r: u8)
        ensures
            r == tier_rank(self),
    {
        match self {
            EvidenceTier::Exact => 0,
            EvidenceTier::NameMatch => 1,
            EvidenceTier::Observed => 2,
            EvidenceTier::EcosystemDefault => 3,
            EvidenceTier::Curated => 4,
        }
    }
}

/// One accounted path.
#[derive(Clone, Debug, PartialEq, Eq)]
pub struct FootprintEntry {
    pub path: FilePath,
    pub kind: EntryKind,
    /// What is left of the path when the claimed paths below it are taken off.
    pub bytes: u64,
    /// What the path itself measures.
    pub raw_bytes: u64,
    /// The owners that claim the path; more than one means that it is shared.
    pub owners: Vec<String>,
    pub tier: EvidenceTier,
    /// What links the path to its owner.
    pub evidence: String,
    pub label: String,
    pub baseline: bool,
    /// A copy-on-write clone of a package store: counted in reach, never as exclusive.
    pub clone_of_store: bool,
    /// A size that another system reports and that takes no room on this disk.
    pub virtual_bytes: bool,
    /// The path was not found, so that its size is a guess of zero.
    pub is_unsized: bool,
    /// What the path was made for is gone.
    pub stale: bool,
    pub finding: Option<FindingId>,
    /// Why nothing owns the path.
    pub reason: Option<String>,
}

/// One accounted path, as a value.
#[verifier::ext_equal]
pub struct EntryView {
    pub path: Seq<Seq<char>>,
    pub kind: EntryKind,
    pub bytes: u64,
    pub raw_bytes: u64,
    pub owners: Seq<Seq<char>>,
    pub tier: EvidenceTier,
    pub evidence: Seq<char>,
    pub label: Seq<char>,
    pub baseline: bool,
    pub clone_of_store: bool,
    pub virtual_bytes: bool,
    pub is_unsized: bool,
    pub stale: bool,
    pub finding: Option<FindingId>,
    pub reason: Option<Seq<char>>,
}

impl View for FootprintEntry {
    type V = EntryView;

    open spec fn view(&self) -> EntryView {
        EntryView {
            path: self.path@,
            kind: self.kind,
            bytes: self.bytes,
            raw_bytes: self.raw_bytes,
            owners: self.owners.deep_view(),
            tier: self.tier,
            evidence: self.evidence@,
            label: self.label@,
            baseline: self.baseline,
            clone_of_store: self.clone_of_store,
            virtual_bytes: self.virtual_bytes,
            is_unsized: self.is_unsized,
            stale: self.stale,
            finding: self.finding,
            reason: self.reason.deep_view(),
        }
    }
}

impl DeepView for FootprintEntry {
    type V = EntryView;

    open spec fn deep_view(&self) -> EntryView {
        self@
    }
}

impl FootprintEntry {
    /// The same entry once more.
    pub fn copy(&self) -> (r: FootprintEntry)
        ensures
            r@ == self@,
    {
        FootprintEntry {
            path: self.path.copy(),
            kind: self.kind,
            bytes: self.bytes,
            raw_bytes: self.raw_bytes,
            owners: copy_strings(&self.owners),
            tier: self.tier,
            evidence: self.evidence.clone(),
            label: self.label.clone(),
            baseline: self.baseline,
            clone_of_store: self.clone_of_store,
            virtual_bytes: self.virtual_bytes,
            is_unsized: self.is_unsized,
            stale: self.stale,
            finding: self.finding,
            reason: match &self.reason {
                Some(s) => Some(s.clone()),
                None => None,
            },
        }
    }
}

/// The entries of one kind in an owner's breakdown.
#[derive(Clone, Debug, PartialEq, Eq)]
pub struct FootprintGroup {
    pub kind: EntryKind,
    pub bytes: u64,
    pub entries: Vec<FootprintEntry>,
}

/// The entries of one kind, as a value.
#[verifier::ext_equal]
pub struct GroupView {
    pub kind: EntryKind,
    pub bytes: u64,
    pub entries: Seq<EntryView>,
}

impl View for FootprintGroup {
    type V = GroupView;

    open spec fn view(&self) -> GroupView {
        GroupView { kind: self.kind, bytes: self.bytes, entries: self.entries.deep_view() }
    }
}

impl DeepView for FootprintGroup {
    type V = GroupView;

    open spec fn deep_view(&self) -> GroupView {
        self@
    }
}

/// What sort of program a process runs.
#[derive(Clone, Copy, Debug, PartialEq, Eq, Hash, Structural)]
pub enum ProcKind {
    Shell,
    Server,
    Other,
}

/// A live process that works inside a project.
#[derive(Clone, Debug, PartialEq, Eq)]
pub struct Proc {
    pub pid: u32,
    pub name: String,
    pub kind: ProcKind,
    pub cwd: FilePath,
}

/// A live process, as a value.
#[verifier::ext_equal]
pub struct ProcView {
    pub pid: u32,
    pub name: Seq<char>,
    pub kind: ProcKind,
    pub cwd: Seq<Seq<char>>,
}

impl View for Proc {
    type V = ProcView;

    open spec fn view(&self) -> ProcView {
        ProcView { pid: self.pid, name: self.name@, kind: self.kind, cwd: self.cwd@ }
    }
}

impl DeepView for Proc {
    type V = ProcView;

    open spec fn deep_view(&self) -> ProcView {
        self@
    }
}

/// One owner's row.
#[derive(Clone, Debug, PartialEq, Eq)]
pub struct Footprint {
    pub finding: FindingId,
    pub owner: Owner,
    /// Bytes that only this owner claims.
    pub exclusive: u64,
    /// This owner's part of what several owners claim.
    pub shared: u64,
    /// Everything that this owner claims.
    pub reach: u64,
    /// This owner's part of what its ecosystems share.
    pub baseline_share: u64,
    pub groups: Vec<FootprintGroup>,
    pub worktrees: Vec<FilePath>,
    pub processes: Vec<Proc>,
    pub ports: Vec<u16>,
    /// Whether the row holds a clone of a package store.
    pub clone_note: bool,
}

/// One owner's row, as a value.
#[verifier::ext_equal]
pub struct FootprintView {
    pub finding: FindingId,
    pub owner: OwnerView,
    pub exclusive: u64,
    pub shared: u64,
    pub reach: u64,
    pub baseline_share: u64,
    pub groups: Seq<GroupView>,
    pub worktrees: Seq<Seq<Seq<char>>>,
    pub processes: Seq<ProcView>,
    pub ports: Seq<u16>,
    pub clone_note: bool,
}

impl View for Footprint {
    type V = FootprintView;

    open spec fn view(&self) -> FootprintView {
        FootprintView {
            finding: self.finding,
            owner: self.owner@,
            exclusive: self.exclusive,
            shared: self.shared,
            reach: self.reach,
            baseline_share: self.baseline_share,
            groups: self.groups.deep_view(),
            worktrees: self.worktrees.deep_view(),
            processes: self.processes.deep_view(),
            ports: self.ports@,
            clone_note: self.clone_note,
        }
    }
}

impl DeepView for Footprint {
    type V = FootprintView;

    open spec fn deep_view(&self) -> FootprintView {
        self@
    }
}

/// One axis's whole result.
#[derive(Clone, Debug, PartialEq, Eq)]
pub struct FootprintSet {
    pub axis: Axis,
    pub gen: u64,
    pub footprints: Vec<Footprint>,
    pub baseline: Vec<FootprintEntry>,
    pub unattributed: Vec<FootprintEntry>,
    pub disk_total: u64,
    pub attributed_total: u64,
    /// The sections that had delivered nothing when the set was made.
    pub missing_deps: Vec<ScannerId>,
}

/// One axis's whole result, as a value.
#[verifier::ext_equal]
pub struct SetView {
    pub axis: Axis,
    pub gen: u64,
    pub footprints: Seq<FootprintView>,
    pub baseline: Seq<EntryView>,
    pub unattributed: Seq<EntryView>,
    pub disk_total: u64,
    pub attributed_total: u64,
    pub missing_deps: Seq<ScannerId>,
}

impl View for FootprintSet {
    type V = SetView;

    open spec fn view(&self) -> SetView {
        SetView {
            axis: self.axis,
            gen: self.gen,
            footprints: self.footprints.deep_view(),
            baseline: self.baseline.deep_view(),
            unattributed: self.unattributed.deep_view(),
            disk_total: self.disk_total,
            attributed_total: self.attributed_total,
            missing_deps: self.missing_deps@,
        }
    }
}

/// What a resolver claims about one path.
#[derive(Clone, Debug, PartialEq, Eq)]
pub struct Claim {
    pub path: FilePath,
    pub owner: String,
    pub kind: EntryKind,
    pub tier: EvidenceTier,
    pub evidence: String,
    pub label: String,
    pub baseline: bool,
    /// The ecosystem that the claim places its owner in.
    pub ecosystem: Option<&'static str>,
    pub clone_of_store: bool,
    pub virtual_bytes: bool,
    /// A size that a scanner has measured better than a look at the path would.
    pub raw_bytes_override: Option<u64>,
    pub finding: Option<FindingId>,
    pub stale: bool,
}

/// What a resolver claims about one path, as a value.
#[verifier::ext_equal]
pub struct ClaimView {
    pub path: Seq<Seq<char>>,
    pub owner: Seq<char>,
    pub kind: EntryKind,
    pub tier: EvidenceTier,
    pub evidence: Seq<char>,
    pub label: Seq<char>,
    pub baseline: bool,
    pub ecosystem: Option<Seq<char>>,
    pub clone_of_store: bool,
    pub virtual_bytes: bool,
    pub raw_bytes_override: Option<u64>,
    pub finding: Option<FindingId>,
    pub stale: bool,
}

/// A claim without anything optional.
pub open spec fn plain_claim(
    path: Seq<Seq<char>>,
    owner: Seq<char>,
    kind: EntryKind,
    tier: EvidenceTier,
    evidence: Seq<char>,
) -> ClaimView {
    ClaimView {
        path,
        owner,
        kind,
        tier,
        evidence,
        label: seq![],
        baseline: false,
        ecosystem: None,
        clone_of_store: false,
        virtual_bytes: false,
        raw_bytes_override: None,
        finding: None,
        stale: false,
    }
}

impl ClaimView {
    /// The claim with this label.
    pub open spec fn labelled(self, label: Seq<char>) -> ClaimView {
        ClaimView { label, ..self }
    }

    /// The claim as part of an ecosystem's baseline.
    pub open spec fn in_baseline(self, ecosystem: Seq<char>) -> ClaimView {
        ClaimView { baseline: true, ecosystem: Some(ecosystem), ..self }
    }

    /// The claim tagged with an ecosystem.
    pub open spec fn tagged(self, ecosystem: Seq<char>) -> ClaimView {
        ClaimView { ecosystem: Some(ecosystem), ..self }
    }

    /// The claim as a clone of a package store.
    pub open spec fn cloned_store(self) -> ClaimView {
        ClaimView { clone_of_store: true, ..self }
    }

    /// The claim on something that takes no room on this disk.
    pub open spec fn virtually(self) -> ClaimView {
        ClaimView { virtual_bytes: true, ..self }
    }

    /// The claim with a known size.
    pub open spec fn sized(self, bytes: u64) -> ClaimView {
        ClaimView { raw_bytes_override: Some(bytes), ..self }
    }

    /// The claim that a finding stands for.
    pub open spec fn of_finding(self, id: FindingId) -> ClaimView {
        ClaimView { finding: Some(id), ..self }
    }

    /// The claim on something whose reason is gone.
    pub open spec fn gone(self) -> ClaimView {
        ClaimView { stale: true, ..self }
    }
}

/// What an optional constant text spells.
pub open spec fn opt_static(s: Option<&'static str>) -> Option<Seq<char>> {
    match s {
        Some(x) => Some(x@),
        None => None,
    }
}

impl View for Claim {
    type V = ClaimView;

    open spec fn view(&self) -> ClaimView {
        ClaimView {
            path: self.path@,
            owner: self.owner@,
            kind: self.kind,
            tier: self.tier,
            evidence: self.evidence@,
            label: self.label@,
            baseline: self.baseline,
            ecosystem: opt_static(self.ecosystem),
            clone_of_store: self.clone_of_store,
            virtual_bytes: self.virtual_bytes,
            raw_bytes_override: self.raw_bytes_override,
            finding: self.finding,
            stale: self.stale,
        }
    }
}

impl DeepView for Claim {
    type V = ClaimView;

    open spec fn deep_view(&self) -> ClaimView {
        self@
    }
}

impl Claim {
    /// A claim without anything optional.
    pub fn new(
        path: FilePath,
        owner: &str,
        kind: EntryKind,
        tier: EvidenceTier,
        evidence: &str,
    ) -> (r: Claim)
        ensures
            r@ == plain_claim(path@, owner@, kind, tier, evidence@),
    {
        let r = Claim {
            path,
            owner: owner.to_owned(),
            kind,
            tier,
            evidence: evidence.to_owned(),
            label: String::new(),
            baseline: false,
            ecosystem: None,
            clone_of_store: false,
            virtual_bytes: false,
            raw_bytes_override: None,
            finding: None,
            stale: false,
        };
        assert(r@.label =~= seq![]);
        r
    }

    /// The claim with this label.
    pub fn label(self, label: &str) -> (r: Claim)
        ensures
            r@ == self@.labelled(label@),
    {
        let mut r = self;
        r.label = label.to_owned();
        r
    }

    /// The claim as part of an ecosystem's baseline.
    pub fn baseline(self, ecosystem: &'static str) -> (r: Claim)
        ensures
            r@ == self@.in_baseline(ecosystem@),
    {
        let mut r = self;
        r.baseline = true;
        r.ecosystem = Some(ecosystem);
        r
    }

    /// The claim tagged with the ecosystem that it proves its owner to be in.
    pub fn ecosystem(self, ecosystem: &'static str) -> (r: Claim)
        ensures
            r@ == self@.tagged(ecosystem@),
    {
        let mut r = self;
        r.ecosystem = Some(ecosystem);
        r
    }

    /// The claim as a clone of a package store.
    pub fn clone_of_store(self) -> (r: Claim)
        ensures
            r@ == self@.cloned_store(),
    {
        let mut r = self;
        r.clone_of_store = true;
        r
    }

    /// The claim on something that takes no room on this disk.
    pub fn virtual_bytes(self) -> (r: Claim)
        ensures
            r@ == self@.virtually(),
    {
        let mut r = self;
        r.virtual_bytes = true;
        r
    }

    /// The claim with a known size.
    pub fn raw_bytes_override(self, bytes: u64) -> (r: Claim)
        ensures
            r@ == self@.sized(bytes),
    {
        let mut r = self;
        r.raw_bytes_override = Some(bytes);
        r
    }

    /// The claim that a finding stands for.
    pub fn finding(self, id: FindingId) -> (r: Claim)
        ensures
            r@ == self@.of_finding(id),
    {
        let mut r = self;
        r.finding = Some(id);
        r
    }

    /// The claim on something whose reason is gone.
    pub fn stale(self) -> (r: Claim)
        ensures
            r@ == self@.gone(),
    {
        let mut r = self;
        r.stale = true;
        r
    }
}

/// Put a claim behind the others.
pub fn put(claims: &mut Vec<Claim>, claim: Claim)
    ensures
        final(claims).deep_view() == old(claims).deep_view().push(claim@),
{
    let ghost was = claims.deep_view();
    claims.push(claim);
    assert(claims.deep_view() =~= was.push(claim@));
}

/// Put more claims behind the others.
pub fn put_all(claims: &mut Vec<Claim>, more: Vec<Claim>)
    ensures
        final(claims).deep_view() == old(claims).deep_view() + more.deep_view(),
{
    let ghost was = claims.deep_view();
    let mut rest = more;
    claims.append(&mut rest);
    assert(claims.deep_view() =~= was + more.deep_view());
}

/// How a coding agent names what it keeps.
#[derive(Clone, Copy, Debug)]
pub struct AgentNames {
    /// The row for the cache of its command line.
    pub cli_cache_id: &'static str,
    /// The row for its sessions.
    pub sessions_id: &'static str,
    /// What it is called.
    pub title: &'static str,
    /// Its directory in the home directory.
    pub home_dir: &'static str,
    /// Where it keeps the sessions of the projects, from `~/` on.
    pub sessions_root: &'static str,
    /// All that its directory holds, from `~/` on.
    pub state_pattern: &'static str,
    /// What tells whose a session is.
    pub session_evidence: &'static str,
    /// What the sessions of a project are called.
    pub sessions_label: &'static str,
    /// What the cache of its command line is called.
    pub cli_cache_label: &'static str,
    /// What its own state is known by.
    pub state_evidence: &'static str,
    /// The directory of its command line among the caches.
    pub cli_cache: &'static str,
    /// The owner of that directory on the app axis.
    pub tool_owner: &'static str,
    /// Why the directory's name does not tell the owner.
    pub tool_reason: &'static str,
}

/// What resolvers read: where the home directory is, what was walked, what the sections have
/// delivered, and what the environment says of Go's directories.
#[derive(Debug)]
pub struct ResolveEnv {
    pub home: FilePath,
    pub trees: Vec<DirTree>,
    pub snapshots: Vec<(ScannerId, Snapshot)>,
    /// Where Homebrew is installed.
    pub brew_prefix: Option<FilePath>,
    /// The names of files that make a directory a project.
    pub project_markers: Vec<String>,
    /// The names of directories that are never looked into for projects.
    pub skip_dirs: Vec<String>,
    /// The names of the coding agent that keeps its sessions by project.
    pub agent: AgentNames,
    /// npm's index, where it was read before.
    pub npm_index: Option<Vec<NpmEntry>>,
    /// The value of `GOMODCACHE`.
    pub go_mod_cache: Option<String>,
    /// The value of `GOPATH`.
    pub go_path: Option<String>,
}

/// What resolvers read, as a value.
#[verifier::ext_equal]
pub struct EnvView {
    pub home: Seq<Seq<char>>,
    pub trees: Seq<TreeView>,
    pub snapshots: Seq<(ScannerId, Seq<FindingView>)>,
    pub brew_prefix: Option<Seq<Seq<char>>>,
    pub project_markers: Seq<Seq<char>>,
    pub skip_dirs: Seq<Seq<char>>,
    pub agent: AgentNames,
    pub npm_index: Option<Seq<NpmEntryView>>,
    pub go_mod_cache: Option<Seq<char>>,
    pub go_path: Option<Seq<char>>,
}

impl View for ResolveEnv {
    type V = EnvView;

    open spec fn view(&self) -> EnvView {
        EnvView {
            home: self.home@,
            trees: self.trees.deep_view(),
            snapshots: Seq::new(
                self.snapshots@.len(),
                |i: int| (self.snapshots@[i].0, self.snapshots@[i].1.findings.deep_view()),
            ),
            brew_prefix: self.brew_prefix.deep_view(),
            project_markers: self.project_markers.deep_view(),
            skip_dirs: self.skip_dirs.deep_view(),
            agent: self.agent,
            npm_index: self.npm_index.deep_view(),
            go_mod_cache: self.go_mod_cache.deep_view(),
            go_path: self.go_path.deep_view(),
        }
    }
}

/// What the first snapshot of a section holds; nothing where there is none.
pub open spec fn findings_of(
    snapshots: Seq<(ScannerId, Seq<FindingView>)>,
    id: ScannerId,
) -> Seq<FindingView>
    decreases snapshots.len(),
{
    if snapshots.len() == 0 {
        seq![]
    } else if snapshots[0].0 == id {
        snapshots[0].1
    } else {
        findings_of(snapshots.skip(1), id)
    }
}

impl EnvView {
    /// A section's findings.
    pub open spec fn findings(self, id: ScannerId) -> Seq<FindingView> {
        findings_of(self.snapshots, id)
    }
}

impl ResolveEnv {
    /// An environment without Homebrew and without project markers, in which Go's variables are not
    /// set and npm's index was not read yet.
    pub fn new(
        home: FilePath,
        trees: Vec<DirTree>,
        snapshots: Vec<(ScannerId, Snapshot)>,
        agent: AgentNames,
    ) -> (r: ResolveEnv)
        ensures
            r.home == home,
            r.trees == trees,
            r.snapshots == snapshots,
            r.brew_prefix is None,
            r.project_markers@.len() == 0,
            r.skip_dirs@.len() == 0,
            r.agent == agent,
            r.npm_index is None,
            r.go_mod_cache is None,
            r.go_path is None,
    {
        ResolveEnv {
            home,
            trees,
            snapshots,
            brew_prefix: None,
            project_markers: Vec::new(),
            skip_dirs: Vec::new(),
            agent,
            npm_index: None,
            go_mod_cache: None,
            go_path: None,
        }
    }

    /// A section's findings; none where the section has delivered nothing.
    pub fn findings(&self, id: ScannerId) -> (r: &[Finding])
        ensures
            r.deep_view() == self@.findings(id),
    {
        let ghost all = self@.snapshots;
        let mut i: usize = 0;
        assert(all.skip(0) =~= all);
        while i < self.snapshots.len()
            invariant
                i <= self.snapshots.len(),
                all == self@.snapshots,
                findings_of(all, id) == findings_of(all.skip(i as int), id),
            decreases self.snapshots.len() - i,
        {
            assert(all.skip(i as int)[0] == all[i as int]);
            assert(all.skip(i as int).skip(1) =~= all.skip(i + 1));
            if self.snapshots[i].0 == id {
                let f = self.snapshots[i].1.findings.as_slice();
                assert(f.deep_view() =~= self.snapshots[i as int].1.findings.deep_view());
                return f;
            }
            i = i + 1;
        }
        let none: &[Finding] = &[];
        assert(none.deep_view() =~= seq![]);
        none
    }

    /// The text that at most the first `max_bytes` of a file spell; nothing where it cannot be read.
    /// The head is read once: where one is kept of the file it is the answer, whatever `max_bytes`
    /// is.
    pub fn read_head(&self, disk: &mut Disk, path: &FilePath, max_bytes: usize) -> (r: Option<
        String,
    >)
        requires
            old(disk).wf(),
        ensures
            final(disk).asked(*old(disk)),
            final(disk).holds() ==> r.deep_view() == old(disk)@.head(path@, max_bytes),
            old(disk).heads@.contains_key(path@) ==> r.deep_view() == old(disk).heads@[path@],
            final(disk).heads@ == old(disk).heads@,
            final(disk).wanted.deep_view() == (if old(disk).heads@.contains_key(path@) {
                old(disk).wanted.deep_view()
            } else {
                old(disk).wanted.deep_view().push(WantView::Head(path@, max_bytes))
            }),
    {
        let r = disk.head(path, max_bytes);
        assert(disk.heads@ == disk.facts().heads && old(disk).heads@ == old(disk).facts().heads);
        r
    }
}

} // verus!
