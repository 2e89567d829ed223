//! What the scanners deliver: sections, findings, directory trees and events.

use vstd::prelude::*;

use crate::attribution::model::FootprintSet;
use crate::doc::Doc;
use crate::doc::DocView;
use crate::fspath::{copy_strings, under, FilePath};
use crate::text::{chars_of, same};

verus! {

/// One scanner, and the section that shows its findings.
#[derive(Clone, Copy, Debug, PartialEq, Eq, Hash, Structural)]
pub enum ScannerId {
    System,
    Apps,
    Brew,
    Tools,
    Fs,
    Projects,
    AppStorage,
    Launchd,
    ShellEnv,
    Runtimes,
    Docker,
    Ports,
    Git,
    Simulator,
    Ios,
    SshKeys,
    TimeMachine,
}

impl DeepView for ScannerId {
    type V = ScannerId;

    open spec fn deep_view(&self) -> ScannerId {
        *self
    }
}

/// Every scanner, in the order in which the sections are shown.
pub open spec fn all_scanners() -> Seq<ScannerId> {
    seq![
        ScannerId::System,
        ScannerId::Apps,
        ScannerId::Brew,
        ScannerId::Tools,
        ScannerId::Fs,
        ScannerId::Projects,
        ScannerId::AppStorage,
        ScannerId::Launchd,
        ScannerId::ShellEnv,
        ScannerId::Runtimes,
        ScannerId::Docker,
        ScannerId::Ports,
        ScannerId::Git,
        ScannerId::Simulator,
        ScannerId::Ios,
        ScannerId::SshKeys,
        ScannerId::TimeMachine,
    ]
}

/// The name of a scanner in keys and on the command line.
pub open spec fn scanner_slug(id: ScannerId) -> Seq<char> {
    match id {
        ScannerId::System => "system"@,
        ScannerId::Apps => "apps"@,
        ScannerId::Brew => "brew"@,
        ScannerId::Tools => "tools"@,
        ScannerId::Fs => "fs"@,
        ScannerId::Projects => "projects"@,
        ScannerId::AppStorage => "app_storage"@,
        ScannerId::Launchd => "launchd"@,
        ScannerId::ShellEnv => "shell_env"@,
        ScannerId::Runtimes => "runtimes"@,
        ScannerId::Docker => "docker"@,
        ScannerId::Ports => "ports"@,
        ScannerId::Git => "git"@,
        ScannerId::Simulator => "simulator"@,
        ScannerId::Ios => "ios"@,
        ScannerId::SshKeys => "ssh_keys"@,
        ScannerId::TimeMachine => "time_machine"@,
    }
}

/// How many scanners there are.
pub const SCANNERS: usize = 17;

/// The place of a scanner among all.
pub open spec fn scanner_place(id: ScannerId) -> int {
    match id {
        ScannerId::System => 0,
        ScannerId::Apps => 1,
        ScannerId::Brew => 2,
        ScannerId::Tools => 3,
        ScannerId::Fs => 4,
        ScannerId::Projects => 5,
        ScannerId::AppStorage => 6,
        ScannerId::Launchd => 7,
        ScannerId::ShellEnv => 8,
        ScannerId::Runtimes => 9,
        ScannerId::Docker => 10,
        ScannerId::Ports => 11,
        ScannerId::Git => 12,
        ScannerId::Simulator => 13,
        ScannerId::Ios => 14,
        ScannerId::SshKeys => 15,
        ScannerId::TimeMachine => 16,
    }
}

impl ScannerId {
    /// The place of the scanner among all.
    pub fn place(self) -> (r: usize)
        ensures
            r == scanner_place(self),
            r < SCANNERS,
            all_scanners()[r as int] == self,
    {
        match self {
            ScannerId::System => 0,
            ScannerId::Apps => 1,
            ScannerId::Brew => 2,
            ScannerId::Tools => 3,
            ScannerId::Fs => 4,
            ScannerId::Projects => 5,
            ScannerId::AppStorage => 6,
            ScannerId::Launchd => 7,
            ScannerId::ShellEnv => 8,
            ScannerId::Runtimes => 9,
            ScannerId::Docker => 10,
            ScannerId::Ports => 11,
            ScannerId::Git => 12,
            ScannerId::Simulator => 13,
            ScannerId::Ios => 14,
            ScannerId::SshKeys => 15,
            ScannerId::TimeMachine => 16,
        }
    }

    /// Every scanner, in the order in which the sections are shown.
    pub fn all() -> (r: Vec<ScannerId>)
        ensures
            r@ == all_scanners(),
            forall|id: ScannerId| r@.contains(id),
    {
        let r = vec![
            ScannerId::System,
            ScannerId::Apps,
            ScannerId::Brew,
            ScannerId::Tools,
            ScannerId::Fs,
            ScannerId::Projects,
            ScannerId::AppStorage,
            ScannerId::Launchd,
            ScannerId::ShellEnv,
            ScannerId::Runtimes,
            ScannerId::Docker,
            ScannerId::Ports,
            ScannerId::Git,
            ScannerId::Simulator,
            ScannerId::Ios,
            ScannerId::SshKeys,
            ScannerId::TimeMachine,
        ];
        proof {
            let s = r@;
            assert(s =~= all_scanners());
            assert forall|id: ScannerId| s.contains(id) by {
                assert(s[0] == ScannerId::System && s[1] == ScannerId::Apps && s[2]
                    == ScannerId::Brew && s[3] == ScannerId::Tools && s[4] == ScannerId::Fs && s[5]
                    == ScannerId::Projects && s[6] == ScannerId::AppStorage && s[7]
                    == ScannerId::Launchd && s[8] == ScannerId::ShellEnv && s[9]
                    == ScannerId::Runtimes && s[10] == ScannerId::Docker && s[11]
                    == ScannerId::Ports && s[12] == ScannerId::Git && s[13] == ScannerId::Simulator
                    && s[14] == ScannerId::Ios && s[15] == ScannerId::SshKeys && s[16]
                    == ScannerId::TimeMachine);
            }
        }
        r
    }

    /// The name of the scanner in keys and on the command line.
    pub fn slug(self) -> (r: &'static str)
        ensures
            r@ == scanner_slug(self),
    {
        match self {
            ScannerId::System => "system",
            ScannerId::Apps => "apps",
            ScannerId::Brew => "brew",
            ScannerId::Tools => "tools",
            ScannerId::Fs => "fs",
            ScannerId::Projects => "projects",
            ScannerId::AppStorage => "app_storage",
            ScannerId::Launchd => "launchd",
            ScannerId::ShellEnv => "shell_env",
            ScannerId::Runtimes => "runtimes",
            ScannerId::Docker => "docker",
            ScannerId::Ports => "ports",
            ScannerId::Git => "git",
            ScannerId::Simulator => "simulator",
            ScannerId::Ios => "ios",
            ScannerId::SshKeys => "ssh_keys",
            ScannerId::TimeMachine => "time_machine",
        }
    }
}

/// What a finding is about.
#[derive(Clone, Copy, Debug, PartialEq, Eq, Hash, Structural)]
pub enum FindingKind {
    SystemMetric,
    ProcessResource,
    DiskCategory,
    App,
    Project,
    AppOwner,
    ProjectBucket,
    AppStorageBucket,
    BrewFormula,
    BrewCask,
    GlobalTool,
    CommandResolution,
    ToolCoverage,
    BuildArtifact,
    CacheDir,
    LaunchdItem,
    PathEntry,
    RuntimeVersion,
    DockerObject,
    PortListener,
    GitRepo,
    Simulator,
    IosDevice,
    IosApp,
    SshKey,
    IosBackup,
    LocalSnapshot,
    LargeFile,
    TmDestination,
    TmExclusion,
    TmExclusionCandidate,
    TmBackupEstimate,
    TmStaleMount,
    TmPurgeable,
}

/// A finding's stable number.
#[derive(Clone, Copy, Debug, PartialEq, Eq, Hash, Structural)]
pub struct FindingId(pub u64);

/// The number of a kind.
pub open spec fn kind_number(k: FindingKind) -> u64 {
    match k {
        FindingKind::SystemMetric => 0,
        FindingKind::ProcessResource => 1,
        FindingKind::DiskCategory => 2,
        FindingKind::App => 3,
        FindingKind::Project => 4,
        FindingKind::AppOwner => 5,
        FindingKind::ProjectBucket => 6,
        FindingKind::AppStorageBucket => 7,
        FindingKind::BrewFormula => 8,
        FindingKind::BrewCask => 9,
        FindingKind::GlobalTool => 10,
        FindingKind::CommandResolution => 11,
        FindingKind::ToolCoverage => 12,
        FindingKind::BuildArtifact => 13,
        FindingKind::CacheDir => 14,
        FindingKind::LaunchdItem => 15,
        FindingKind::PathEntry => 16,
        FindingKind::RuntimeVersion => 17,
        FindingKind::DockerObject => 18,
        FindingKind::PortListener => 19,
        FindingKind::GitRepo => 20,
        FindingKind::Simulator => 21,
        FindingKind::IosDevice => 22,
        FindingKind::IosApp => 23,
        FindingKind::SshKey => 24,
        FindingKind::IosBackup => 25,
        FindingKind::LocalSnapshot => 26,
        FindingKind::LargeFile => 27,
        FindingKind::TmDestination => 28,
        FindingKind::TmExclusion => 29,
        FindingKind::TmExclusionCandidate => 30,
        FindingKind::TmBackupEstimate => 31,
        FindingKind::TmStaleMount => 32,
        FindingKind::TmPurgeable => 33,
    }
}

/// One step of the FNV-1a hash.
pub open spec fn hash_step(h: u64, x: u64) -> u64 {
    (h ^ x).wrapping_mul(0x100000001b3)
}

/// The FNV-1a hash of a kind and a text, character by character.
pub open spec fn hash_of(kind: FindingKind, key: Seq<char>) -> u64
    decreases key.len(),
{
    if key.len() == 0 {
        hash_step(0xcbf29ce484222325, kind_number(kind))
    } else {
        hash_step(hash_of(kind, key.drop_last()), key.last() as u64)
    }
}

impl FindingKind {
    /// The number of the kind.
    pub fn number(self) -> (r: u64)
        ensures
            r == kind_number(self),
    {
        match self {
            FindingKind::SystemMetric => 0,
            FindingKind::ProcessResource => 1,
            FindingKind::DiskCategory => 2,
            FindingKind::App => 3,
            FindingKind::Project => 4,
            FindingKind::AppOwner => 5,
            FindingKind::ProjectBucket => 6,
            FindingKind::AppStorageBucket => 7,
            FindingKind::BrewFormula => 8,
            FindingKind::BrewCask => 9,
            FindingKind::GlobalTool => 10,
            FindingKind::CommandResolution => 11,
            FindingKind::ToolCoverage => 12,
            FindingKind::BuildArtifact => 13,
            FindingKind::CacheDir => 14,
            FindingKind::LaunchdItem => 15,
            FindingKind::PathEntry => 16,
            FindingKind::RuntimeVersion => 17,
            FindingKind::DockerObject => 18,
            FindingKind::PortListener => 19,
            FindingKind::GitRepo => 20,
            FindingKind::Simulator => 21,
            FindingKind::IosDevice => 22,
            FindingKind::IosApp => 23,
            FindingKind::SshKey => 24,
            FindingKind::IosBackup => 25,
            FindingKind::LocalSnapshot => 26,
            FindingKind::LargeFile => 27,
            FindingKind::TmDestination => 28,
            FindingKind::TmExclusion => 29,
            FindingKind::TmExclusionCandidate => 30,
            FindingKind::TmBackupEstimate => 31,
            FindingKind::TmStaleMount => 32,
            FindingKind::TmPurgeable => 33,
        }
    }
}

impl FindingId {
    /// The number of the finding of `kind` about `key`: the same in every run. That it is the FNV-1a
    /// hash of the two is this library's own choice; nothing reads more out of it than which finding
    /// is meant.
    pub fn new(kind: FindingKind, key: &str) -> (r: FindingId)
        ensures
            r.0 == hash_of(kind, key@),
    {
        let chars = chars_of(key);
        let mut h: u64 = (0xcbf29ce484222325u64 ^ kind.number()).wrapping_mul(0x100000001b3);
        let mut i: usize = 0;
        assert(key@.take(0) =~= seq![]);
        while i < chars.len()
            invariant
                i <= chars.len(),
                chars@ == key@,
                h == hash_of(kind, key@.take(i as int)),
            decreases chars.len() - i,
        {
            assert(key@.take(i + 1).drop_last() =~= key@.take(i as int));
            h = (h ^ (chars[i] as u64)).wrapping_mul(0x100000001b3);
            i = i + 1;
        }
        assert(key@.take(i as int) =~= key@);
        FindingId(h)
    }
}

/// How much attention a finding asks for.
#[derive(Clone, Copy, Debug, PartialEq, Eq, Structural)]
pub enum Severity {
    Info,
    Attention,
    Reclaimable,
    Warning,
}

/// Whether deleting moves to the Trash or removes for good.
#[derive(Clone, Copy, Debug, PartialEq, Eq, Structural)]
pub enum DeleteMode {
    Trash,
    Rm,
}

/// How a section's findings are shown.
#[derive(Clone, Copy, Debug, PartialEq, Eq, Structural)]
pub enum ViewKind {
    Overview,
    Tree,
    Table,
}

/// The concrete thing that a remedy does.
#[derive(Debug)]
pub enum RemedyCommand {
    Trash { path: FilePath },
    Shell { program: String, args: Vec<String> },
    RevealInFinder { path: FilePath },
    CopyToClipboard { text: String },
    Probe { program: String, args: Vec<String>, timeout_secs: u64 },
}

/// The concrete thing that a remedy does, as a value.
#[verifier::ext_equal]
pub enum CommandView {
    Trash { path: Seq<Seq<char>> },
    Shell { program: Seq<char>, args: Seq<Seq<char>> },
    RevealInFinder { path: Seq<Seq<char>> },
    CopyToClipboard { text: Seq<char> },
    Probe { program: Seq<char>, args: Seq<Seq<char>>, timeout_secs: u64 },
}

impl View for RemedyCommand {
    type V = CommandView;

    open spec fn view(&self) -> CommandView {
        match self {
            RemedyCommand::Trash { path } => CommandView::Trash { path: path@ },
            RemedyCommand::Shell { program, args } => CommandView::Shell {
                program: program@,
                args: args.deep_view(),
            },
            RemedyCommand::RevealInFinder { path } => CommandView::RevealInFinder { path: path@ },
            RemedyCommand::CopyToClipboard { text } => CommandView::CopyToClipboard { text: text@ },
            RemedyCommand::Probe { program, args, timeout_secs } => CommandView::Probe {
                program: program@,
                args: args.deep_view(),
                timeout_secs: *timeout_secs,
            },
        }
    }
}

impl RemedyCommand {
    /// The same command once more.
    pub fn copy(&self) -> (r: RemedyCommand)
        ensures
            r@ == self@,
    {
        match self {
            RemedyCommand::Trash { path } => RemedyCommand::Trash { path: path.copy() },
            RemedyCommand::Shell { program, args } => RemedyCommand::Shell {
                program: program.clone(),
                args: copy_strings(args),
            },
            RemedyCommand::RevealInFinder { path } => RemedyCommand::RevealInFinder {
                path: path.copy(),
            },
            RemedyCommand::CopyToClipboard { text } => RemedyCommand::CopyToClipboard {
                text: text.clone(),
            },
            RemedyCommand::Probe { program, args, timeout_secs } => RemedyCommand::Probe {
                program: program.clone(),
                args: copy_strings(args),
                timeout_secs: *timeout_secs,
            },
        }
    }
}

/// One action that can be taken against a finding.
#[derive(Debug)]
pub struct Remedy {
    pub label: String,
    pub command: RemedyCommand,
    /// The command as the user sees it before it runs.
    pub rendered: String,
    pub reclaims_bytes: Option<u64>,
    pub destructive: bool,
    pub alternative: bool,
    /// A check that has to pass before the command runs.
    pub guard: Option<String>,
}

/// One action that can be taken against a finding, as a value.
#[verifier::ext_equal]
pub struct RemedyView {
    pub label: Seq<char>,
    pub command: CommandView,
    pub rendered: Seq<char>,
    pub reclaims_bytes: Option<u64>,
    pub destructive: bool,
    pub alternative: bool,
    pub guard: Option<Seq<char>>,
}

impl View for Remedy {
    type V = RemedyView;

    open spec fn view(&self) -> RemedyView {
        RemedyView {
            label: self.label@,
            command: self.command@,
            rendered: self.rendered@,
            reclaims_bytes: self.reclaims_bytes,
            destructive: self.destructive,
            alternative: self.alternative,
            guard: self.guard.deep_view(),
        }
    }
}

impl DeepView for Remedy {
    type V = RemedyView;

    open spec fn deep_view(&self) -> RemedyView {
        self@
    }
}

/// The same optional text once more.
pub fn copy_opt_text(s: &Option<String>) -> (r: Option<String>)
    ensures
        r.deep_view() == s.deep_view(),
{
    match s {
        Some(x) => Some(x.clone()),
        None => None,
    }
}

impl Remedy {
    /// The same remedy once more.
    pub fn copy(&self) -> (r: Remedy)
        ensures
            r@ == self@,
    {
        Remedy {
            label: self.label.clone(),
            command: self.command.copy(),
            rendered: self.rendered.clone(),
            reclaims_bytes: self.reclaims_bytes,
            destructive: self.destructive,
            alternative: self.alternative,
            guard: copy_opt_text(&self.guard),
        }
    }
}

/// The same remedies once more.
pub fn copy_remedies(v: &Vec<Remedy>) -> (r: Vec<Remedy>)
    ensures
        r.deep_view() == v.deep_view(),
{
    let mut out: Vec<Remedy> = Vec::new();
    let mut i: usize = 0;
    while i < v.len()
        invariant
            i <= v.len(),
            out.len() == i,
            forall|j: int| 0 <= j < i ==> (#[trigger] out@[j])@ == v@[j]@,
        decreases v.len() - i,
    {
        let x = v[i].copy();
        out.push(x);
        i = i + 1;
    }
    assert(out.deep_view() =~= v.deep_view());
    out
}

/// One result of a scan.
#[derive(Debug)]
pub struct Finding {
    pub id: FindingId,
    pub kind: FindingKind,
    /// The section that the kind belongs to.
    pub section: ScannerId,
    /// The tree bucket that shows the finding.
    pub group: String,
    pub title: String,
    pub detail: String,
    pub path: Option<FilePath>,
    pub size_bytes: Option<u64>,
    /// Seconds since the epoch.
    pub last_used: Option<u64>,
    pub severity: Severity,
    pub remedies: Vec<Remedy>,
    pub provenance: Option<String>,
    pub coverage: Option<String>,
    /// What the scanner has to say beyond that.
    pub meta: Doc,
}

/// One result of a scan, as a value.
#[verifier::ext_equal]
pub struct FindingView {
    pub id: FindingId,
    pub kind: FindingKind,
    pub section: ScannerId,
    pub group: Seq<char>,
    pub title: Seq<char>,
    pub detail: Seq<char>,
    pub path: Option<Seq<Seq<char>>>,
    pub size_bytes: Option<u64>,
    pub last_used: Option<u64>,
    pub severity: Severity,
    pub remedies: Seq<RemedyView>,
    pub provenance: Option<Seq<char>>,
    pub coverage: Option<Seq<char>>,
    pub meta: DocView,
}

impl View for Finding {
    type V = FindingView;

    open spec fn view(&self) -> FindingView {
        FindingView {
            id: self.id,
            kind: self.kind,
            section: self.section,
            group: self.group@,
            title: self.title@,
            detail: self.detail@,
            path: self.path.deep_view(),
            size_bytes: self.size_bytes,
            last_used: self.last_used,
            severity: self.severity,
            remedies: self.remedies.deep_view(),
            provenance: self.provenance.deep_view(),
            coverage: self.coverage.deep_view(),
            meta: self.meta@,
        }
    }
}

impl Finding {
    /// The same finding once more.
    pub fn copy(&self) -> (r: Finding)
        ensures
            r@ == self@,
    {
        let path = match &self.path {
            Some(p) => Some(p.copy()),
            None => None,
        };
        Finding {
            id: self.id,
            kind: self.kind,
            section: self.section,
            group: self.group.clone(),
            title: self.title.clone(),
            detail: self.detail.clone(),
            path,
            size_bytes: self.size_bytes,
            last_used: self.last_used,
            severity: self.severity,
            remedies: copy_remedies(&self.remedies),
            provenance: copy_opt_text(&self.provenance),
            coverage: copy_opt_text(&self.coverage),
            meta: self.meta.copy(),
        }
    }
}

/// The same findings once more.
pub fn copy_findings(v: &Vec<Finding>) -> (r: Vec<Finding>)
    ensures
        r.deep_view() == v.deep_view(),
{
    let mut out: Vec<Finding> = Vec::new();
    let mut i: usize = 0;
    while i < v.len()
        invariant
            i <= v.len(),
            out.len() == i,
            forall|j: int| 0 <= j < i ==> (#[trigger] out@[j])@ == v@[j]@,
        decreases v.len() - i,
    {
        let x = v[i].copy();
        out.push(x);
        i = i + 1;
    }
    assert(out.deep_view() =~= v.deep_view());
    out
}

impl DeepView for Finding {
    type V = FindingView;

    open spec fn deep_view(&self) -> FindingView {
        self@
    }
}

/// One directory of a walked tree.
#[derive(Debug)]
pub struct DirNode {
    pub name: String,
    /// Bytes that the whole subtree takes on disk.
    pub alloc: u64,
    /// Sum of the file lengths in the subtree.
    pub apparent: u64,
    pub files: u64,
    pub dirs: u64,
    /// Directories in the subtree that could not be read.
    pub errors: u64,
    pub children: Vec<DirNode>,
}

/// What a directory of a walked tree holds.
#[verifier::ext_equal]
pub struct DirView {
    pub name: Seq<char>,
    pub alloc: u64,
    pub apparent: u64,
    pub files: u64,
    pub dirs: u64,
    pub errors: u64,
    pub children: Seq<DirView>,
}

/// What `d` holds.
pub open spec fn dir_view(d: DirNode) -> DirView
    decreases d,
{
    DirView {
        name: d.name@,
        alloc: d.alloc,
        apparent: d.apparent,
        files: d.files,
        dirs: d.dirs,
        errors: d.errors,
        children: Seq::new(
            d.children@.len(),
            |i: int|
                if 0 <= i < d.children@.len() {
                    dir_view(d.children@[i])
                } else {
                    arbitrary()
                },
        ),
    }
}

impl View for DirNode {
    type V = DirView;

    open spec fn view(&self) -> DirView {
        dir_view(*self)
    }
}

impl DeepView for DirNode {
    type V = DirView;

    open spec fn deep_view(&self) -> DirView {
        dir_view(*self)
    }
}

/// The first of `dirs` with this name.
pub open spec fn dir_named(dirs: Seq<DirView>, name: Seq<char>) -> Option<DirView>
    decreases dirs.len(),
{
    if dirs.len() == 0 {
        None
    } else if dirs[0].name == name {
        Some(dirs[0])
    } else {
        dir_named(dirs.skip(1), name)
    }
}

/// The directory that the names `rel` lead to from `d`.
pub open spec fn dir_at(d: DirView, rel: Seq<Seq<char>>) -> Option<DirView>
    decreases rel.len(),
{
    if rel.len() == 0 {
        Some(d)
    } else {
        match dir_named(d.children, rel[0]) {
            Some(c) => dir_at(c, rel.skip(1)),
            None => None,
        }
    }
}

/// What an optional borrowed directory holds.
pub open spec fn opt_dir(d: Option<&DirNode>) -> Option<DirView> {
    match d {
        Some(x) => Some(x@),
        None => None,
    }
}

impl DirNode {
    /// The same directory once more.
    pub fn copy(&self) -> (r: DirNode)
        ensures
            r@ == self@,
        decreases self,
    {
        let mut children: Vec<DirNode> = Vec::new();
        let mut i: usize = 0;
        while i < self.children.len()
            invariant
                i <= self.children.len(),
                children.len() == i,
                forall|j: int| 0 <= j < i ==> (#[trigger] children@[j])@ == self.children@[j]@,
            decreases self.children.len() - i,
        {
            assert(decreases_to!(*self => self.children));
            assert(decreases_to!(self.children => self.children@));
            assert(decreases_to!(self.children@ => self.children@[i as int]));
            let c = self.children[i].copy();
            children.push(c);
            i = i + 1;
        }
        let r = DirNode {
            name: self.name.clone(),
            alloc: self.alloc,
            apparent: self.apparent,
            files: self.files,
            dirs: self.dirs,
            errors: self.errors,
            children,
        };
        assert(r@.children =~= self@.children);
        r
    }

    /// The subdirectory with this name.
    pub fn child(&self, name: &str) -> (r: Option<&DirNode>)
        ensures
            opt_dir(r) == dir_named(self@.children, name@),
    {
        let ghost all = self@.children;
        let mut i: usize = 0;
        assert(all.skip(0) =~= all);
        while i < self.children.len()
            invariant
                i <= self.children.len(),
                all == self@.children,
                dir_named(all, name@) == dir_named(all.skip(i as int), name@),
            decreases self.children.len() - i,
        {
            assert(all[i as int] == self.children@[i as int]@);
            assert(all.skip(i as int)[0] == all[i as int]);
            assert(all.skip(i as int).skip(1) =~= all.skip(i + 1));
            if same(self.children[i].name.as_str(), name) {
                return Some(&self.children[i]);
            }
            i = i + 1;
        }
        None
    }

    /// The directory at `path` in a tree whose top lies at `top`.
    pub fn find(&self, top: &FilePath, path: &FilePath) -> (r: Option<&DirNode>)
        ensures
            opt_dir(r) == (if under(path@, top@) {
                dir_at(self@, path@.skip(top@.len() as int))
            } else {
                None
            }),
    {
        if !path.under(top) {
            return None;
        }
        let ghost rel = path@.skip(top@.len() as int);
        let mut cur: &DirNode = self;
        let mut i: usize = top.comps.len();
        assert(path@.skip(i as int) =~= rel);
        while i < path.comps.len()
            invariant
                i <= path.comps.len(),
                dir_at(self@, rel) == dir_at(cur@, path@.skip(i as int)),
                under(path@, top@),
                rel == path@.skip(top@.len() as int),
            decreases path.comps.len() - i,
        {
            assert(path@.skip(i as int)[0] == path.comps[i as int]@);
            assert(path@.skip(i as int).skip(1) =~= path@.skip(i + 1));
            match cur.child(path.comps[i].as_str()) {
                Some(next) => {
                    cur = next;
                },
                None => {
                    return None;
                },
            }
            i = i + 1;
        }
        Some(cur)
    }
}

/// One walked root.
#[derive(Debug)]
pub struct DirTree {
    pub root: FilePath,
    pub node: DirNode,
    /// Bytes that the whole tree takes on disk.
    pub bytes: u64,
    pub complete: bool,
}

/// What a walked root holds.
#[verifier::ext_equal]
pub struct TreeView {
    pub root: Seq<Seq<char>>,
    pub node: DirView,
    pub bytes: u64,
    pub complete: bool,
}

impl View for DirTree {
    type V = TreeView;

    open spec fn view(&self) -> TreeView {
        TreeView {
            root: self.root@,
            node: self.node@,
            bytes: self.bytes,
            complete: self.complete,
        }
    }
}

impl DeepView for DirTree {
    type V = TreeView;

    open spec fn deep_view(&self) -> TreeView {
        self@
    }
}

impl DirTree {
    /// The same tree once more.
    pub fn copy(&self) -> (r: DirTree)
        ensures
            r@ == self@,
    {
        DirTree {
            root: self.root.copy(),
            node: self.node.copy(),
            bytes: self.bytes,
            complete: self.complete,
        }
    }
}

/// The same trees once more.
pub fn copy_trees(v: &Vec<DirTree>) -> (r: Vec<DirTree>)
    ensures
        r.deep_view() == v.deep_view(),
{
    let mut out: Vec<DirTree> = Vec::new();
    let mut i: usize = 0;
    while i < v.len()
        invariant
            i <= v.len(),
            out.len() == i,
            forall|j: int| 0 <= j < i ==> (#[trigger] out@[j])@ == v@[j]@,
        decreases v.len() - i,
    {
        let x = v[i].copy();
        out.push(x);
        i = i + 1;
    }
    assert(out.deep_view() =~= v.deep_view());
    out
}

/// One step of a scan, as the engine reports it.
#[derive(Debug)]
pub enum ScanEvent {
    Started { scanner: ScannerId, gen: u64 },
    Progress { scanner: ScannerId, gen: u64, msg: String, done: u64, total: Option<u64> },
    Finding { scanner: ScannerId, gen: u64, finding: Finding },
    Finished { scanner: ScannerId, gen: u64, duration_ms: u64 },
    Failed { scanner: ScannerId, gen: u64, error: String },
    DirTree { scanner: ScannerId, gen: u64, tree: DirTree },
    Footprints { scanner: ScannerId, gen: u64, set: FootprintSet },
}

impl ScanEvent {
    /// The scanner that an event is from.
    pub open spec fn spec_scanner(self) -> ScannerId {
        match self {
            ScanEvent::Started { scanner, .. } => scanner,
            ScanEvent::Progress { scanner, .. } => scanner,
            ScanEvent::Finding { scanner, .. } => scanner,
            ScanEvent::Finished { scanner, .. } => scanner,
            ScanEvent::Failed { scanner, .. } => scanner,
            ScanEvent::DirTree { scanner, .. } => scanner,
            ScanEvent::Footprints { scanner, .. } => scanner,
        }
    }

    /// The scan that an event belongs to.
    pub open spec fn spec_generation(self) -> u64 {
        match self {
            ScanEvent::Started { gen, .. } => gen,
            ScanEvent::Progress { gen, .. } => gen,
            ScanEvent::Finding { gen, .. } => gen,
            ScanEvent::Finished { gen, .. } => gen,
            ScanEvent::Failed { gen, .. } => gen,
            ScanEvent::DirTree { gen, .. } => gen,
            ScanEvent::Footprints { gen, .. } => gen,
        }
    }

    /// The scanner that the event is from.
    pub fn scanner(&self) -> (r: ScannerId)
        ensures
            r == self.spec_scanner(),
    {
        match self {
            ScanEvent::Started { scanner, .. } => *scanner,
            ScanEvent::Progress { scanner, .. } => *scanner,
            ScanEvent::Finding { scanner, .. } => *scanner,
            ScanEvent::Finished { scanner, .. } => *scanner,
            ScanEvent::Failed { scanner, .. } => *scanner,
            ScanEvent::DirTree { scanner, .. } => *scanner,
            ScanEvent::Footprints { scanner, .. } => *scanner,
        }
    }

    /// The scan that the event belongs to.
    pub fn generation(&self) -> (r: u64)
        ensures
            r == self.spec_generation(),
    {
        match self {
            ScanEvent::Started { gen, .. } => *gen,
            ScanEvent::Progress { gen, .. } => *gen,
            ScanEvent::Finding { gen, .. } => *gen,
            ScanEvent::Finished { gen, .. } => *gen,
            ScanEvent::Failed { gen, .. } => *gen,
            ScanEvent::DirTree { gen, .. } => *gen,
            ScanEvent::Footprints { gen, .. } => *gen,
        }
    }
}

/// A section as the sidebar lists it.
#[derive(Clone, Debug, PartialEq, Eq)]
pub struct SectionRow {
    pub id: ScannerId,
    pub title: String,
    pub short_title: String,
    pub view: ViewKind,
}

/// A section as the sidebar lists it, as a value.
#[verifier::ext_equal]
pub struct SectionRowView {
    pub id: ScannerId,
    pub title: Seq<char>,
    pub short_title: Seq<char>,
    pub view: ViewKind,
}

impl View for SectionRow {
    type V = SectionRowView;

    open spec fn view(&self) -> SectionRowView {
        SectionRowView {
            id: self.id,
            title: self.title@,
            short_title: self.short_title@,
            view: self.view,
        }
    }
}

impl DeepView for SectionRow {
    type V = SectionRowView;

    open spec fn deep_view(&self) -> SectionRowView {
        self@
    }
}

/// One of the largest files of a directory.
#[derive(Clone, Debug, PartialEq, Eq)]
pub struct BigFile {
    pub path: FilePath,
    pub alloc: u64,
}

/// One of the largest files of a directory, as a value.
#[verifier::ext_equal]
pub struct BigFileView {
    pub path: Seq<Seq<char>>,
    pub alloc: u64,
}

impl View for BigFile {
    type V = BigFileView;

    open spec fn view(&self) -> BigFileView {
        BigFileView {
            path: self.path@,
            alloc: self.alloc,
        }
    }
}

impl DeepView for BigFile {
    type V = BigFileView;

    open spec fn deep_view(&self) -> BigFileView {
        self@
    }
}

/// One directory of a walked tree, without what lies in it.
#[derive(Clone, Debug, PartialEq, Eq)]
pub struct DirNodeSummary {
    pub name: String,
    pub path: FilePath,
    pub alloc: u64,
    pub apparent: u64,
    pub files: u64,
    pub dirs: u64,
    pub errors: u64,
    pub child_count: u64,
}

/// One directory of a walked tree, without what lies in it, as a value.
#[verifier::ext_equal]
pub struct SummaryView {
    pub name: Seq<char>,
    pub path: Seq<Seq<char>>,
    pub alloc: u64,
    pub apparent: u64,
    pub files: u64,
    pub dirs: u64,
    pub errors: u64,
    pub child_count: u64,
}

impl View for DirNodeSummary {
    type V = SummaryView;

    open spec fn view(&self) -> SummaryView {
        SummaryView {
            name: self.name@,
            path: self.path@,
            alloc: self.alloc,
            apparent: self.apparent,
            files: self.files,
            dirs: self.dirs,
            errors: self.errors,
            child_count: self.child_count,
        }
    }
}

impl DeepView for DirNodeSummary {
    type V = SummaryView;

    open spec fn deep_view(&self) -> SummaryView {
        self@
    }
}

} // verus!
