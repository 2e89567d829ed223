//! The values that the app shows: copies of what the engine holds, with paths as texts.

use vstd::prelude::*;

use crate::attribution::model as attrib;
use crate::attribution::model::{
    EntryView, FootprintView, GroupView, OwnerView, ProcView, SetView,
};
use crate::cleanup;
use crate::cleanup::{
    PlannedActionValue, PreflightReportValue, RefusedValue, RemovalPreviewValue, RetainedValue,
};
use crate::doc::{is_json, is_whole, json_document, json_text, write_json, Doc, DocView};
use crate::fspath::{copy_strings, path_text, FilePath};
use crate::scan;
use crate::scan::{
    copy_opt_text, scanner_slug, BigFileView, CommandView, FindingId, FindingView, RemedyView,
    SectionRow, SectionRowView, SummaryView,
};

verus! {

/// One section of the sidebar.
#[derive(Clone, Copy, Debug, PartialEq, Eq, Hash, Structural)]
pub enum SectionId {
    System,
    Apps,
    Brew,
    Tools,
    Fs,
    Projects,
    AppStorage,
    Launchd,
    ShellEnv,
    Runtimes,
    Docker,
    Ports,
    Git,
    Simulator,
    Ios,
    SshKeys,
    TimeMachine,
}

/// The section of a scanner.
pub open spec fn section_of(x: scan::ScannerId) -> SectionId {
    match x {
        scan::ScannerId::System => SectionId::System,
        scan::ScannerId::Apps => SectionId::Apps,
        scan::ScannerId::Brew => SectionId::Brew,
        scan::ScannerId::Tools => SectionId::Tools,
        scan::ScannerId::Fs => SectionId::Fs,
        scan::ScannerId::Projects => SectionId::Projects,
        scan::ScannerId::AppStorage => SectionId::AppStorage,
        scan::ScannerId::Launchd => SectionId::Launchd,
        scan::ScannerId::ShellEnv => SectionId::ShellEnv,
        scan::ScannerId::Runtimes => SectionId::Runtimes,
        scan::ScannerId::Docker => SectionId::Docker,
        scan::ScannerId::Ports => SectionId::Ports,
        scan::ScannerId::Git => SectionId::Git,
        scan::ScannerId::Simulator => SectionId::Simulator,
        scan::ScannerId::Ios => SectionId::Ios,
        scan::ScannerId::SshKeys => SectionId::SshKeys,
        scan::ScannerId::TimeMachine => SectionId::TimeMachine,
    }
}

impl vstd::std_specs::convert::FromSpecImpl<scan::ScannerId> for SectionId {
    open spec fn obeys_from_spec() -> bool {
        true
    }

    open spec fn from_spec(x: scan::ScannerId) -> SectionId {
        section_of(x)
    }
}

impl From<scan::ScannerId> for SectionId {
    fn from(x: scan::ScannerId) -> (r: SectionId) {
        match x {
            scan::ScannerId::System => SectionId::System,
            scan::ScannerId::Apps => SectionId::Apps,
            scan::ScannerId::Brew => SectionId::Brew,
            scan::ScannerId::Tools => SectionId::Tools,
            scan::ScannerId::Fs => SectionId::Fs,
            scan::ScannerId::Projects => SectionId::Projects,
            scan::ScannerId::AppStorage => SectionId::AppStorage,
            scan::ScannerId::Launchd => SectionId::Launchd,
            scan::ScannerId::ShellEnv => SectionId::ShellEnv,
            scan::ScannerId::Runtimes => SectionId::Runtimes,
            scan::ScannerId::Docker => SectionId::Docker,
            scan::ScannerId::Ports => SectionId::Ports,
            scan::ScannerId::Git => SectionId::Git,
            scan::ScannerId::Simulator => SectionId::Simulator,
            scan::ScannerId::Ios => SectionId::Ios,
            scan::ScannerId::SshKeys => SectionId::SshKeys,
            scan::ScannerId::TimeMachine => SectionId::TimeMachine,
        }
    }
}

/// The scanner of a section.
pub open spec fn scanner_of(x: SectionId) -> scan::ScannerId {
    match x {
        SectionId::System => scan::ScannerId::System,
        SectionId::Apps => scan::ScannerId::Apps,
        SectionId::Brew => scan::ScannerId::Brew,
        SectionId::Tools => scan::ScannerId::Tools,
        SectionId::Fs => scan::ScannerId::Fs,
        SectionId::Projects => scan::ScannerId::Projects,
        SectionId::AppStorage => scan::ScannerId::AppStorage,
        SectionId::Launchd => scan::ScannerId::Launchd,
        SectionId::ShellEnv => scan::ScannerId::ShellEnv,
        SectionId::Runtimes => scan::ScannerId::Runtimes,
        SectionId::Docker => scan::ScannerId::Docker,
        SectionId::Ports => scan::ScannerId::Ports,
        SectionId::Git => scan::ScannerId::Git,
        SectionId::Simulator => scan::ScannerId::Simulator,
        SectionId::Ios => scan::ScannerId::Ios,
        SectionId::SshKeys => scan::ScannerId::SshKeys,
        SectionId::TimeMachine => scan::ScannerId::TimeMachine,
    }
}

impl vstd::std_specs::convert::FromSpecImpl<SectionId> for scan::ScannerId {
    open spec fn obeys_from_spec() -> bool {
        true
    }

    open spec fn from_spec(x: SectionId) -> scan::ScannerId {
        scanner_of(x)
    }
}

impl From<SectionId> for scan::ScannerId {
    fn from(x: SectionId) -> (r: scan::ScannerId) {
        match x {
            SectionId::System => scan::ScannerId::System,
            SectionId::Apps => scan::ScannerId::Apps,
            SectionId::Brew => scan::ScannerId::Brew,
            SectionId::Tools => scan::ScannerId::Tools,
            SectionId::Fs => scan::ScannerId::Fs,
            SectionId::Projects => scan::ScannerId::Projects,
            SectionId::AppStorage => scan::ScannerId::AppStorage,
            SectionId::Launchd => scan::ScannerId::Launchd,
            SectionId::ShellEnv => scan::ScannerId::ShellEnv,
            SectionId::Runtimes => scan::ScannerId::Runtimes,
            SectionId::Docker => scan::ScannerId::Docker,
            SectionId::Ports => scan::ScannerId::Ports,
            SectionId::Git => scan::ScannerId::Git,
            SectionId::Simulator => scan::ScannerId::Simulator,
            SectionId::Ios => scan::ScannerId::Ios,
            SectionId::SshKeys => scan::ScannerId::SshKeys,
            SectionId::TimeMachine => scan::ScannerId::TimeMachine,
        }
    }
}

/// How a section's findings are shown.
#[derive(Clone, Copy, Debug, PartialEq, Eq, Structural)]
pub enum ViewKind {
    Overview,
    Tree,
    Table,
}

/// How a section is shown.
pub open spec fn view_kind(x: scan::ViewKind) -> ViewKind {
    match x {
        scan::ViewKind::Overview => ViewKind::Overview,
        scan::ViewKind::Tree => ViewKind::Tree,
        scan::ViewKind::Table => ViewKind::Table,
    }
}

impl vstd::std_specs::convert::FromSpecImpl<scan::ViewKind> for ViewKind {
    open spec fn obeys_from_spec() -> bool {
        true
    }

    open spec fn from_spec(x: scan::ViewKind) -> ViewKind {
        view_kind(x)
    }
}

impl From<scan::ViewKind> for ViewKind {
    fn from(x: scan::ViewKind) -> (r: ViewKind) {
        match x {
            scan::ViewKind::Overview => ViewKind::Overview,
            scan::ViewKind::Tree => ViewKind::Tree,
            scan::ViewKind::Table => ViewKind::Table,
        }
    }
}

/// What is fixed about a section.
#[derive(Clone, Debug, PartialEq, Eq)]
pub struct SectionMeta {
    pub id: SectionId,
    pub slug: String,
    pub title: String,
    pub short_title: String,
    pub view: ViewKind,
}

/// What is fixed about a section, as a value.
#[verifier::ext_equal]
pub struct SectionMetaRecord {
    pub id: SectionId,
    pub slug: Seq<char>,
    pub title: Seq<char>,
    pub short_title: Seq<char>,
    pub view: ViewKind,
}

impl View for SectionMeta {
    type V = SectionMetaRecord;

    open spec fn view(&self) -> SectionMetaRecord {
        SectionMetaRecord {
            id: self.id,
            slug: self.slug@,
            title: self.title@,
            short_title: self.short_title@,
            view: self.view,
        }
    }
}

impl DeepView for SectionMeta {
    type V = SectionMetaRecord;

    open spec fn deep_view(&self) -> SectionMetaRecord {
        self@
    }
}

/// What is fixed about a section.
pub open spec fn section_meta(row: SectionRowView) -> SectionMetaRecord {
    SectionMetaRecord {
        id: section_of(row.id),
        slug: scanner_slug(row.id),
        title: row.title,
        short_title: row.short_title,
        view: view_kind(row.view),
    }
}

impl vstd::std_specs::convert::FromSpecImpl<&SectionRow> for SectionMeta {
    open spec fn obeys_from_spec() -> bool {
        false
    }

    open spec fn from_spec(x: &SectionRow) -> SectionMeta {
        arbitrary()
    }
}

impl From<&SectionRow> for SectionMeta {
    fn from(x: &SectionRow) -> (r: SectionMeta)
        ensures
            r@ == section_meta(x@),
    {
        SectionMeta {
            id: SectionId::from(x.id),
            slug: x.id.slug().to_owned(),
            title: x.title.clone(),
            short_title: x.short_title.clone(),
            view: ViewKind::from(x.view),
        }
    }
}

/// What is fixed about the sections, in the order in which they are shown.
pub open spec fn section_meta_list(s: Seq<SectionRowView>) -> Seq<SectionMetaRecord> {
    Seq::new(s.len(), |i: int| section_meta(s[i]))
}

/// What is fixed about the sections, in the order in which they are shown.
pub fn sections(v: &Vec<SectionRow>) -> (r: Vec<SectionMeta>)
    ensures
        r.deep_view() == section_meta_list(v.deep_view()),
{
    let mut out: Vec<SectionMeta> = Vec::new();
    let mut i: usize = 0;
    while i < v.len()
        invariant
            i <= v.len(),
            out.len() == i,
            forall|j: int| 0 <= j < i ==> (#[trigger] out@[j])@ == section_meta(v@[j]@),
        decreases v.len() - i,
    {
        let x = SectionMeta::from(&v[i]);
        out.push(x);
        i = i + 1;
    }
    assert(out.deep_view() =~= section_meta_list(v.deep_view()));
    out
}

/// How much attention a finding asks for.
#[derive(Clone, Copy, Debug, PartialEq, Eq, Structural)]
pub enum Severity {
    Info,
    Attention,
    Reclaimable,
    Warning,
}

/// How much attention a finding asks for.
pub open spec fn severity_of(x: scan::Severity) -> Severity {
    match x {
        scan::Severity::Info => Severity::Info,
        scan::Severity::Attention => Severity::Attention,
        scan::Severity::Reclaimable => Severity::Reclaimable,
        scan::Severity::Warning => Severity::Warning,
    }
}

impl vstd::std_specs::convert::FromSpecImpl<scan::Severity> for Severity {
    open spec fn obeys_from_spec() -> bool {
        true
    }

    open spec fn from_spec(x: scan::Severity) -> Severity {
        severity_of(x)
    }
}

impl From<scan::Severity> for Severity {
    fn from(x: scan::Severity) -> (r: Severity) {
        match x {
            scan::Severity::Info => Severity::Info,
            scan::Severity::Attention => Severity::Attention,
            scan::Severity::Reclaimable => Severity::Reclaimable,
            scan::Severity::Warning => Severity::Warning,
        }
    }
}

/// What a finding is about.
#[derive(Clone, Copy, Debug, PartialEq, Eq, Structural)]
pub enum FindingKind {
    SystemMetric,
    ProcessResource,
    DiskCategory,
    App,
    Project,
    AppOwner,
    ProjectBucket,
    AppStorageBucket,
    BrewFormula,
    BrewCask,
    GlobalTool,
    CommandResolution,
    ToolCoverage,
    BuildArtifact,
    CacheDir,
    LaunchdItem,
    PathEntry,
    RuntimeVersion,
    DockerObject,
    PortListener,
    GitRepo,
    Simulator,
    IosDevice,
    IosApp,
    SshKey,
    IosBackup,
    LocalSnapshot,
    LargeFile,
    TmDestination,
    TmExclusion,
    TmExclusionCandidate,
    TmBackupEstimate,
    TmStaleMount,
    TmPurgeable,
}

/// What a finding is about.
pub open spec fn kind_of(x: scan::FindingKind) -> FindingKind {
    match x {
        scan::FindingKind::SystemMetric => FindingKind::SystemMetric,
        scan::FindingKind::ProcessResource => FindingKind::ProcessResource,
        scan::FindingKind::DiskCategory => FindingKind::DiskCategory,
        scan::FindingKind::App => FindingKind::App,
        scan::FindingKind::Project => FindingKind::Project,
        scan::FindingKind::AppOwner => FindingKind::AppOwner,
        scan::FindingKind::ProjectBucket => FindingKind::ProjectBucket,
        scan::FindingKind::AppStorageBucket => FindingKind::AppStorageBucket,
        scan::FindingKind::BrewFormula => FindingKind::BrewFormula,
        scan::FindingKind::BrewCask => FindingKind::BrewCask,
        scan::FindingKind::GlobalTool => FindingKind::GlobalTool,
        scan::FindingKind::CommandResolution => FindingKind::CommandResolution,
        scan::FindingKind::ToolCoverage => FindingKind::ToolCoverage,
        scan::FindingKind::BuildArtifact => FindingKind::BuildArtifact,
        scan::FindingKind::CacheDir => FindingKind::CacheDir,
        scan::FindingKind::LaunchdItem => FindingKind::LaunchdItem,
        scan::FindingKind::PathEntry => FindingKind::PathEntry,
        scan::FindingKind::RuntimeVersion => FindingKind::RuntimeVersion,
        scan::FindingKind::DockerObject => FindingKind::DockerObject,
        scan::FindingKind::PortListener => FindingKind::PortListener,
        scan::FindingKind::GitRepo => FindingKind::GitRepo,
        scan::FindingKind::Simulator => FindingKind::Simulator,
        scan::FindingKind::IosDevice => FindingKind::IosDevice,
        scan::FindingKind::IosApp => FindingKind::IosApp,
        scan::FindingKind::SshKey => FindingKind::SshKey,
        scan::FindingKind::IosBackup => FindingKind::IosBackup,
        scan::FindingKind::LocalSnapshot => FindingKind::LocalSnapshot,
        scan::FindingKind::LargeFile => FindingKind::LargeFile,
        scan::FindingKind::TmDestination => FindingKind::TmDestination,
        scan::FindingKind::TmExclusion => FindingKind::TmExclusion,
        scan::FindingKind::TmExclusionCandidate => FindingKind::TmExclusionCandidate,
        scan::FindingKind::TmBackupEstimate => FindingKind::TmBackupEstimate,
        scan::FindingKind::TmStaleMount => FindingKind::TmStaleMount,
        scan::FindingKind::TmPurgeable => FindingKind::TmPurgeable,
    }
}

impl vstd::std_specs::convert::FromSpecImpl<scan::FindingKind> for FindingKind {
    open spec fn obeys_from_spec() -> bool {
        true
    }

    open spec fn from_spec(x: scan::FindingKind) -> FindingKind {
        kind_of(x)
    }
}

impl From<scan::FindingKind> for FindingKind {
    fn from(x: scan::FindingKind) -> (r: FindingKind) {
        match x {
            scan::FindingKind::SystemMetric => FindingKind::SystemMetric,
            scan::FindingKind::ProcessResource => FindingKind::ProcessResource,
            scan::FindingKind::DiskCategory => FindingKind::DiskCategory,
            scan::FindingKind::App => FindingKind::App,
            scan::FindingKind::Project => FindingKind::Project,
            scan::FindingKind::AppOwner => FindingKind::AppOwner,
            scan::FindingKind::ProjectBucket => FindingKind::ProjectBucket,
            scan::FindingKind::AppStorageBucket => FindingKind::AppStorageBucket,
            scan::FindingKind::BrewFormula => FindingKind::BrewFormula,
            scan::FindingKind::BrewCask => FindingKind::BrewCask,
            scan::FindingKind::GlobalTool => FindingKind::GlobalTool,
            scan::FindingKind::CommandResolution => FindingKind::CommandResolution,
            scan::FindingKind::ToolCoverage => FindingKind::ToolCoverage,
            scan::FindingKind::BuildArtifact => FindingKind::BuildArtifact,
            scan::FindingKind::CacheDir => FindingKind::CacheDir,
            scan::FindingKind::LaunchdItem => FindingKind::LaunchdItem,
            scan::FindingKind::PathEntry => FindingKind::PathEntry,
            scan::FindingKind::RuntimeVersion => FindingKind::RuntimeVersion,
            scan::FindingKind::DockerObject => FindingKind::DockerObject,
            scan::FindingKind::PortListener => FindingKind::PortListener,
            scan::FindingKind::GitRepo => FindingKind::GitRepo,
            scan::FindingKind::Simulator => FindingKind::Simulator,
            scan::FindingKind::IosDevice => FindingKind::IosDevice,
            scan::FindingKind::IosApp => FindingKind::IosApp,
            scan::FindingKind::SshKey => FindingKind::SshKey,
            scan::FindingKind::IosBackup => FindingKind::IosBackup,
            scan::FindingKind::LocalSnapshot => FindingKind::LocalSnapshot,
            scan::FindingKind::LargeFile => FindingKind::LargeFile,
            scan::FindingKind::TmDestination => FindingKind::TmDestination,
            scan::FindingKind::TmExclusion => FindingKind::TmExclusion,
            scan::FindingKind::TmExclusionCandidate => FindingKind::TmExclusionCandidate,
            scan::FindingKind::TmBackupEstimate => FindingKind::TmBackupEstimate,
            scan::FindingKind::TmStaleMount => FindingKind::TmStaleMount,
            scan::FindingKind::TmPurgeable => FindingKind::TmPurgeable,
        }
    }
}

/// The concrete thing that a remedy does.
#[derive(Clone, Debug, PartialEq, Eq)]
pub enum RemedyCommand {
    Trash { path: String },
    Shell { program: String, args: Vec<String> },
    RevealInFinder { path: String },
    CopyToClipboard { text: String },
    Probe { program: String, args: Vec<String>, timeout_secs: u64 },
}

/// The concrete thing that a remedy does, as a value.
#[verifier::ext_equal]
pub enum CommandRecord {
    Trash { path: Seq<char> },
    Shell { program: Seq<char>, args: Seq<Seq<char>> },
    RevealInFinder { path: Seq<char> },
    CopyToClipboard { text: Seq<char> },
    Probe { program: Seq<char>, args: Seq<Seq<char>>, timeout_secs: u64 },
}

impl View for RemedyCommand {
    type V = CommandRecord;

    open spec fn view(&self) -> CommandRecord {
        match self {
            RemedyCommand::Trash { path } => CommandRecord::Trash { path: path@ },
            RemedyCommand::Shell { program, args } => CommandRecord::Shell {
                program: program@,
                args: args.deep_view(),
            },
            RemedyCommand::RevealInFinder { path } => CommandRecord::RevealInFinder { path: path@ },
            RemedyCommand::CopyToClipboard { text } => CommandRecord::CopyToClipboard {
                text: text@,
            },
            RemedyCommand::Probe { program, args, timeout_secs } => CommandRecord::Probe {
                program: program@,
                args: args.deep_view(),
                timeout_secs: *timeout_secs,
            },
        }
    }
}

/// A command, with its path as a text.
pub open spec fn command_record(c: CommandView) -> CommandRecord {
    match c {
        CommandView::Trash { path } => CommandRecord::Trash { path: path_text(path) },
        CommandView::Shell { program, args } => CommandRecord::Shell { program, args },
        CommandView::RevealInFinder { path } => CommandRecord::RevealInFinder {
            path: path_text(path),
        },
        CommandView::CopyToClipboard { text } => CommandRecord::CopyToClipboard { text },
        CommandView::Probe { program, args, timeout_secs } => CommandRecord::Probe {
            program,
            args,
            timeout_secs,
        },
    }
}

impl vstd::std_specs::convert::FromSpecImpl<&scan::RemedyCommand> for RemedyCommand {
    open spec fn obeys_from_spec() -> bool {
        false
    }

    open spec fn from_spec(x: &scan::RemedyCommand) -> RemedyCommand {
        arbitrary()
    }
}

impl From<&scan::RemedyCommand> for RemedyCommand {
    fn from(x: &scan::RemedyCommand) -> (r: RemedyCommand)
        ensures
            r@ == command_record(x@),
    {
        match x {
            scan::RemedyCommand::Trash { path } => RemedyCommand::Trash { path: path.text() },
            scan::RemedyCommand::Shell { program, args } => RemedyCommand::Shell {
                program: program.clone(),
                args: copy_strings(args),
            },
            scan::RemedyCommand::RevealInFinder { path } => RemedyCommand::RevealInFinder {
                path: path.text(),
            },
            scan::RemedyCommand::CopyToClipboard { text } => RemedyCommand::CopyToClipboard {
                text: text.clone(),
            },
            scan::RemedyCommand::Probe { program, args, timeout_secs } => RemedyCommand::Probe {
                program: program.clone(),
                args: copy_strings(args),
                timeout_secs: *timeout_secs,
            },
        }
    }
}

/// One action that can be taken against a finding.
#[derive(Clone, Debug, PartialEq, Eq)]
pub struct Remedy {
    pub label: String,
    pub command: RemedyCommand,
    /// The command as the user sees it before it runs.
    pub rendered: String,
    pub reclaims_bytes: Option<u64>,
    pub destructive: bool,
    pub alternative: bool,
    pub has_guard: bool,
}

/// One action that can be taken against a finding, as a value.
#[verifier::ext_equal]
pub struct RemedyRecord {
    pub label: Seq<char>,
    pub command: CommandRecord,
    pub rendered: Seq<char>,
    pub reclaims_bytes: Option<u64>,
    pub destructive: bool,
    pub alternative: bool,
    pub has_guard: bool,
}

impl View for Remedy {
    type V = RemedyRecord;

    open spec fn view(&self) -> RemedyRecord {
        RemedyRecord {
            label: self.label@,
            command: self.command@,
            rendered: self.rendered@,
            reclaims_bytes: self.reclaims_bytes,
            destructive: self.destructive,
            alternative: self.alternative,
            has_guard: self.has_guard,
        }
    }
}

impl DeepView for Remedy {
    type V = RemedyRecord;

    open spec fn deep_view(&self) -> RemedyRecord {
        self@
    }
}

/// A remedy, as the app shows it.
pub open spec fn remedy_record(r: RemedyView) -> RemedyRecord {
    RemedyRecord {
        label: r.label,
        command: command_record(r.command),
        rendered: r.rendered,
        reclaims_bytes: r.reclaims_bytes,
        destructive: r.destructive,
        alternative: r.alternative,
        has_guard: r.guard is Some,
    }
}

impl vstd::std_specs::convert::FromSpecImpl<&scan::Remedy> for Remedy {
    open spec fn obeys_from_spec() -> bool {
        false
    }

    open spec fn from_spec(x: &scan::Remedy) -> Remedy {
        arbitrary()
    }
}

impl From<&scan::Remedy> for Remedy {
    fn from(x: &scan::Remedy) -> (r: Remedy)
        ensures
            r@ == remedy_record(x@),
    {
        Remedy {
            label: x.label.clone(),
            command: RemedyCommand::from(&x.command),
            rendered: x.rendered.clone(),
            reclaims_bytes: x.reclaims_bytes,
            destructive: x.destructive,
            alternative: x.alternative,
            has_guard: x.guard.is_some(),
        }
    }
}

/// Remedies, as the app shows them.
pub open spec fn remedy_record_list(s: Seq<RemedyView>) -> Seq<RemedyRecord> {
    Seq::new(s.len(), |i: int| remedy_record(s[i]))
}

/// Remedies, as the app shows them.
pub fn remedies(v: &Vec<scan::Remedy>) -> (r: Vec<Remedy>)
    ensures
        r.deep_view() == remedy_record_list(v.deep_view()),
{
    let mut out: Vec<Remedy> = Vec::new();
    let mut i: usize = 0;
    while i < v.len()
        invariant
            i <= v.len(),
            out.len() == i,
            forall|j: int| 0 <= j < i ==> (#[trigger] out@[j])@ == remedy_record(v@[j]@),
        decreases v.len() - i,
    {
        let x = Remedy::from(&v[i]);
        out.push(x);
        i = i + 1;
    }
    assert(out.deep_view() =~= remedy_record_list(v.deep_view()));
    out
}

/// One result of a scan.
#[derive(Clone, Debug, PartialEq, Eq)]
pub struct Finding {
    pub id: u64,
    pub kind: FindingKind,
    pub section: SectionId,
    pub group: String,
    pub title: String,
    pub detail: String,
    pub path: Option<String>,
    pub size_bytes: Option<u64>,
    /// Seconds since the epoch.
    pub last_used: Option<u64>,
    pub severity: Severity,
    pub remedies: Vec<Remedy>,
    pub provenance: Option<String>,
    pub coverage: Option<String>,
    /// What the scanner has to say beyond that, as a JSON text.
    pub meta_json: String,
}

/// One result of a scan, as a value.
#[verifier::ext_equal]
pub struct FindingRecord {
    pub id: u64,
    pub kind: FindingKind,
    pub section: SectionId,
    pub group: Seq<char>,
    pub title: Seq<char>,
    pub detail: Seq<char>,
    pub path: Option<Seq<char>>,
    pub size_bytes: Option<u64>,
    pub last_used: Option<u64>,
    pub severity: Severity,
    pub remedies: Seq<RemedyRecord>,
    pub provenance: Option<Seq<char>>,
    pub coverage: Option<Seq<char>>,
    pub meta_json: Seq<char>,
}

impl View for Finding {
    type V = FindingRecord;

    open spec fn view(&self) -> FindingRecord {
        FindingRecord {
            id: self.id,
            kind: self.kind,
            section: self.section,
            group: self.group@,
            title: self.title@,
            detail: self.detail@,
            path: self.path.deep_view(),
            size_bytes: self.size_bytes,
            last_used: self.last_used,
            severity: self.severity,
            remedies: self.remedies.deep_view(),
            provenance: self.provenance.deep_view(),
            coverage: self.coverage.deep_view(),
            meta_json: self.meta_json@,
        }
    }
}

impl DeepView for Finding {
    type V = FindingRecord;

    open spec fn deep_view(&self) -> FindingRecord {
        self@
    }
}

/// An optional path, as a text.
pub open spec fn opt_path_text(p: Option<Seq<Seq<char>>>) -> Option<Seq<char>> {
    match p {
        Some(x) => Some(path_text(x)),
        None => None,
    }
}

fn path_string(p: &Option<FilePath>) -> (r: Option<String>)
    ensures
        r.deep_view() == opt_path_text(p.deep_view()),
{
    match p {
        Some(x) => Some(x.text()),
        None => None,
    }
}

/// What a scanner has to say, as a JSON text; `{}` where it has nothing to say.
pub open spec fn meta_text(d: DocView) -> Seq<char> {
    if d is Null {
        "{}"@
    } else {
        json_text(d)
    }
}

fn meta_json(d: &Doc) -> (r: String)
    ensures
        r@ == meta_text(d@),
        is_json(d@) && is_whole(d@) && !(d@ is Null) ==> json_document(r@) == Some(d@),
{
    match d {
        Doc::Null => "{}".to_owned(),
        _ => write_json(d),
    }
}

/// A finding, as the app shows it.
pub open spec fn finding_record(f: FindingView) -> FindingRecord {
    FindingRecord {
        id: f.id.0,
        kind: kind_of(f.kind),
        section: section_of(f.section),
        group: f.group,
        title: f.title,
        detail: f.detail,
        path: opt_path_text(f.path),
        size_bytes: f.size_bytes,
        last_used: f.last_used,
        severity: severity_of(f.severity),
        remedies: remedy_record_list(f.remedies),
        provenance: f.provenance,
        coverage: f.coverage,
        meta_json: meta_text(f.meta),
    }
}

impl vstd::std_specs::convert::FromSpecImpl<&scan::Finding> for Finding {
    open spec fn obeys_from_spec() -> bool {
        false
    }

    open spec fn from_spec(x: &scan::Finding) -> Finding {
        arbitrary()
    }
}

impl From<&scan::Finding> for Finding {
    fn from(x: &scan::Finding) -> (r: Finding)
        ensures
            r@ == finding_record(x@),
            is_json(x@.meta) && is_whole(x@.meta) && !(x@.meta is Null) ==> json_document(
                r.meta_json@,
            ) == Some(x@.meta),
    {
        Finding {
            id: x.id.0,
            kind: FindingKind::from(x.kind),
            section: SectionId::from(x.section),
            group: x.group.clone(),
            title: x.title.clone(),
            detail: x.detail.clone(),
            path: path_string(&x.path),
            size_bytes: x.size_bytes,
            last_used: x.last_used,
            severity: Severity::from(x.severity),
            remedies: remedies(&x.remedies),
            provenance: copy_opt_text(&x.provenance),
            coverage: copy_opt_text(&x.coverage),
            meta_json: meta_json(&x.meta),
        }
    }
}

/// Findings, as the app shows them.
pub open spec fn finding_record_list(s: Seq<FindingView>) -> Seq<FindingRecord> {
    Seq::new(s.len(), |i: int| finding_record(s[i]))
}

/// Findings, as the app shows them.
pub fn findings(v: &Vec<scan::Finding>) -> (r: Vec<Finding>)
    ensures
        r.deep_view() == finding_record_list(v.deep_view()),
{
    let mut out: Vec<Finding> = Vec::new();
    let mut i: usize = 0;
    while i < v.len()
        invariant
            i <= v.len(),
            out.len() == i,
            forall|j: int| 0 <= j < i ==> (#[trigger] out@[j])@ == finding_record(v@[j]@),
        decreases v.len() - i,
    {
        let x = Finding::from(&v[i]);
        out.push(x);
        i = i + 1;
    }
    assert(out.deep_view() =~= finding_record_list(v.deep_view()));
    out
}

/// Whether deleting moves to the Trash or removes for good.
#[derive(Clone, Copy, Debug, PartialEq, Eq, Structural)]
pub enum DeleteMode {
    Trash,
    Rm,
}

/// Whether deleting moves to the Trash or removes for good.
pub open spec fn delete_mode_of(x: scan::DeleteMode) -> DeleteMode {
    match x {
        scan::DeleteMode::Trash => DeleteMode::Trash,
        scan::DeleteMode::Rm => DeleteMode::Rm,
    }
}

impl vstd::std_specs::convert::FromSpecImpl<scan::DeleteMode> for DeleteMode {
    open spec fn obeys_from_spec() -> bool {
        true
    }

    open spec fn from_spec(x: scan::DeleteMode) -> DeleteMode {
        delete_mode_of(x)
    }
}

impl From<scan::DeleteMode> for DeleteMode {
    fn from(x: scan::DeleteMode) -> (r: DeleteMode) {
        match x {
            scan::DeleteMode::Trash => DeleteMode::Trash,
            scan::DeleteMode::Rm => DeleteMode::Rm,
        }
    }
}

/// What the app is told while a scan runs.
#[derive(Clone, Debug, PartialEq, Eq)]
pub enum ScanEvent {
    SectionStarted { section: SectionId, gen: u64 },
    Progress { section: SectionId, gen: u64, msg: String, done: u64, total: Option<u64> },
    Findings { section: SectionId, gen: u64, findings: Vec<Finding> },
    SectionFinished { section: SectionId, gen: u64, duration_ms: u64 },
    SectionFailed { section: SectionId, gen: u64, error: String },
    Correlated { gen: u64, findings: Vec<Finding> },
    Enriched { gen: u64, findings: Vec<Finding> },
}

/// What the app is told while a scan runs, as a value.
#[verifier::ext_equal]
pub enum EventRecord {
    SectionStarted { section: SectionId, gen: u64 },
    Progress { section: SectionId, gen: u64, msg: Seq<char>, done: u64, total: Option<u64> },
    Findings { section: SectionId, gen: u64, findings: Seq<FindingRecord> },
    SectionFinished { section: SectionId, gen: u64, duration_ms: u64 },
    SectionFailed { section: SectionId, gen: u64, error: Seq<char> },
    Correlated { gen: u64, findings: Seq<FindingRecord> },
    Enriched { gen: u64, findings: Seq<FindingRecord> },
}

impl View for ScanEvent {
    type V = EventRecord;

    open spec fn view(&self) -> EventRecord {
        match self {
            ScanEvent::SectionStarted { section, gen } => EventRecord::SectionStarted {
                section: *section,
                gen: *gen,
            },
            ScanEvent::Progress { section, gen, msg, done, total } => EventRecord::Progress {
                section: *section,
                gen: *gen,
                msg: msg@,
                done: *done,
                total: *total,
            },
            ScanEvent::Findings { section, gen, findings } => EventRecord::Findings {
                section: *section,
                gen: *gen,
                findings: findings.deep_view(),
            },
            ScanEvent::SectionFinished { section, gen, duration_ms } => EventRecord::SectionFinished {
                section: *section,
                gen: *gen,
                duration_ms: *duration_ms,
            },
            ScanEvent::SectionFailed { section, gen, error } => EventRecord::SectionFailed {
                section: *section,
                gen: *gen,
                error: error@,
            },
            ScanEvent::Correlated { gen, findings } => EventRecord::Correlated {
                gen: *gen,
                findings: findings.deep_view(),
            },
            ScanEvent::Enriched { gen, findings } => EventRecord::Enriched {
                gen: *gen,
                findings: findings.deep_view(),
            },
        }
    }
}

impl DeepView for ScanEvent {
    type V = EventRecord;

    open spec fn deep_view(&self) -> EventRecord {
        self@
    }
}

/// A finding that the user has selected, and which of its remedies; without one the default rule
/// holds.
#[derive(Clone, Debug, PartialEq, Eq)]
pub struct Selection {
    pub finding_id: u64,
    pub remedy_index: Option<u32>,
}

/// A planned action, as the user sees it.
#[derive(Clone, Debug, PartialEq, Eq)]
pub struct PlannedActionView {
    pub finding_id: u64,
    pub label: String,
    pub rendered: String,
    pub destructive: bool,
    pub reclaims_bytes: Option<u64>,
}

/// A planned action, as the user sees it, as a value.
#[verifier::ext_equal]
pub struct ActionRecord {
    pub finding_id: u64,
    pub label: Seq<char>,
    pub rendered: Seq<char>,
    pub destructive: bool,
    pub reclaims_bytes: Option<u64>,
}

impl View for PlannedActionView {
    type V = ActionRecord;

    open spec fn view(&self) -> ActionRecord {
        ActionRecord {
            finding_id: self.finding_id,
            label: self.label@,
            rendered: self.rendered@,
            destructive: self.destructive,
            reclaims_bytes: self.reclaims_bytes,
        }
    }
}

impl DeepView for PlannedActionView {
    type V = ActionRecord;

    open spec fn deep_view(&self) -> ActionRecord {
        self@
    }
}

/// A planned action, as the user sees it.
pub open spec fn action_record(a: PlannedActionValue) -> ActionRecord {
    ActionRecord {
        finding_id: a.finding_id.0,
        label: a.label,
        rendered: a.rendered,
        destructive: a.destructive,
        reclaims_bytes: a.reclaims_bytes,
    }
}

impl vstd::std_specs::convert::FromSpecImpl<&cleanup::PlannedAction> for PlannedActionView {
    open spec fn obeys_from_spec() -> bool {
        false
    }

    open spec fn from_spec(x: &cleanup::PlannedAction) -> PlannedActionView {
        arbitrary()
    }
}

impl From<&cleanup::PlannedAction> for PlannedActionView {
    fn from(x: &cleanup::PlannedAction) -> (r: PlannedActionView)
        ensures
            r@ == action_record(x@),
    {
        PlannedActionView {
            finding_id: x.finding_id.0,
            label: x.label.clone(),
            rendered: x.rendered.clone(),
            destructive: x.destructive,
            reclaims_bytes: x.reclaims_bytes,
        }
    }
}

/// Planned actions, as the user sees them.
pub open spec fn action_record_list(s: Seq<PlannedActionValue>) -> Seq<ActionRecord> {
    Seq::new(s.len(), |i: int| action_record(s[i]))
}

/// Planned actions, as the user sees them.
pub fn actions(v: &Vec<cleanup::PlannedAction>) -> (r: Vec<PlannedActionView>)
    ensures
        r.deep_view() == action_record_list(v.deep_view()),
{
    let mut out: Vec<PlannedActionView> = Vec::new();
    let mut i: usize = 0;
    while i < v.len()
        invariant
            i <= v.len(),
            out.len() == i,
            forall|j: int| 0 <= j < i ==> (#[trigger] out@[j])@ == action_record(v@[j]@),
        decreases v.len() - i,
    {
        let x = PlannedActionView::from(&v[i]);
        out.push(x);
        i = i + 1;
    }
    assert(out.deep_view() =~= action_record_list(v.deep_view()));
    out
}

/// An action that must not run, and why.
#[derive(Clone, Debug, PartialEq, Eq)]
pub struct RefusedAction {
    pub action: PlannedActionView,
    pub reason: String,
}

/// An action that must not run, and why, as a value.
#[verifier::ext_equal]
pub struct RefusedRecord {
    pub action: ActionRecord,
    pub reason: Seq<char>,
}

impl View for RefusedAction {
    type V = RefusedRecord;

    open spec fn view(&self) -> RefusedRecord {
        RefusedRecord {
            action: self.action@,
            reason: self.reason@,
        }
    }
}

impl DeepView for RefusedAction {
    type V = RefusedRecord;

    open spec fn deep_view(&self) -> RefusedRecord {
        self@
    }
}

/// A refused action, as the user sees it.
pub open spec fn refused_record(r: RefusedValue) -> RefusedRecord {
    RefusedRecord { action: action_record(r.action), reason: r.reason }
}

impl vstd::std_specs::convert::FromSpecImpl<&cleanup::Refused> for RefusedAction {
    open spec fn obeys_from_spec() -> bool {
        false
    }

    open spec fn from_spec(x: &cleanup::Refused) -> RefusedAction {
        arbitrary()
    }
}

impl From<&cleanup::Refused> for RefusedAction {
    fn from(x: &cleanup::Refused) -> (r: RefusedAction)
        ensures
            r@ == refused_record(x@),
    {
        RefusedAction {
            action: PlannedActionView::from(&x.action),
            reason: x.reason.clone(),
        }
    }
}

/// Refused actions, as the user sees them.
pub open spec fn refused_record_list(s: Seq<RefusedValue>) -> Seq<RefusedRecord> {
    Seq::new(s.len(), |i: int| refused_record(s[i]))
}

/// Refused actions, as the user sees them.
pub fn refusals(v: &Vec<cleanup::Refused>) -> (r: Vec<RefusedAction>)
    ensures
        r.deep_view() == refused_record_list(v.deep_view()),
{
    let mut out: Vec<RefusedAction> = Vec::new();
    let mut i: usize = 0;
    while i < v.len()
        invariant
            i <= v.len(),
            out.len() == i,
            forall|j: int| 0 <= j < i ==> (#[trigger] out@[j])@ == refused_record(v@[j]@),
        decreases v.len() - i,
    {
        let x = RefusedAction::from(&v[i]);
        out.push(x);
        i = i + 1;
    }
    assert(out.deep_view() =~= refused_record_list(v.deep_view()));
    out
}

/// A package that cannot go, and what keeps it.
#[derive(Clone, Debug, PartialEq, Eq)]
pub struct BlockedPackage {
    pub name: String,
    pub retained_by: Vec<String>,
}

/// A package that cannot go, and what keeps it, as a value.
#[verifier::ext_equal]
pub struct BlockedRecord {
    pub name: Seq<char>,
    pub retained_by: Seq<Seq<char>>,
}

impl View for BlockedPackage {
    type V = BlockedRecord;

    open spec fn view(&self) -> BlockedRecord {
        BlockedRecord {
            name: self.name@,
            retained_by: self.retained_by.deep_view(),
        }
    }
}

impl DeepView for BlockedPackage {
    type V = BlockedRecord;

    open spec fn deep_view(&self) -> BlockedRecord {
        self@
    }
}

/// A package that cannot go, as the user sees it.
pub open spec fn blocked_record(r: RetainedValue) -> BlockedRecord {
    BlockedRecord { name: r.name, retained_by: r.retained_by }
}

impl vstd::std_specs::convert::FromSpecImpl<&cleanup::Retained> for BlockedPackage {
    open spec fn obeys_from_spec() -> bool {
        false
    }

    open spec fn from_spec(x: &cleanup::Retained) -> BlockedPackage {
        arbitrary()
    }
}

impl From<&cleanup::Retained> for BlockedPackage {
    fn from(x: &cleanup::Retained) -> (r: BlockedPackage)
        ensures
            r@ == blocked_record(x@),
    {
        BlockedPackage { name: x.name.clone(), retained_by: copy_strings(&x.retained_by) }
    }
}

/// Packages that cannot go, as the user sees them.
pub open spec fn blocked_record_list(s: Seq<RetainedValue>) -> Seq<BlockedRecord> {
    Seq::new(s.len(), |i: int| blocked_record(s[i]))
}

/// Packages that cannot go, as the user sees them.
pub fn blocked_packages(v: &Vec<cleanup::Retained>) -> (r: Vec<BlockedPackage>)
    ensures
        r.deep_view() == blocked_record_list(v.deep_view()),
{
    let mut out: Vec<BlockedPackage> = Vec::new();
    let mut i: usize = 0;
    while i < v.len()
        invariant
            i <= v.len(),
            out.len() == i,
            forall|j: int| 0 <= j < i ==> (#[trigger] out@[j])@ == blocked_record(v@[j]@),
        decreases v.len() - i,
    {
        let x = BlockedPackage::from(&v[i]);
        out.push(x);
        i = i + 1;
    }
    assert(out.deep_view() =~= blocked_record_list(v.deep_view()));
    out
}

/// What removing packages does to those that depend on them.
#[derive(Clone, Debug, PartialEq, Eq)]
pub struct BrewImpact {
    pub removable: Vec<String>,
    pub blocked: Vec<BlockedPackage>,
    pub newly_orphaned: Vec<String>,
    pub confirmed_orphans: Vec<String>,
    pub uncertain_orphans: Vec<String>,
    pub bytes_selected: Option<u64>,
    pub bytes_with_orphans: Option<u64>,
    pub caveats: Vec<String>,
}

/// What removing packages does to those that depend on them, as a value.
#[verifier::ext_equal]
pub struct ImpactRecord {
    pub removable: Seq<Seq<char>>,
    pub blocked: Seq<BlockedRecord>,
    pub newly_orphaned: Seq<Seq<char>>,
    pub confirmed_orphans: Seq<Seq<char>>,
    pub uncertain_orphans: Seq<Seq<char>>,
    pub bytes_selected: Option<u64>,
    pub bytes_with_orphans: Option<u64>,
    pub caveats: Seq<Seq<char>>,
}

impl View for BrewImpact {
    type V = ImpactRecord;

    open spec fn view(&self) -> ImpactRecord {
        ImpactRecord {
            removable: self.removable.deep_view(),
            blocked: self.blocked.deep_view(),
            newly_orphaned: self.newly_orphaned.deep_view(),
            confirmed_orphans: self.confirmed_orphans.deep_view(),
            uncertain_orphans: self.uncertain_orphans.deep_view(),
            bytes_selected: self.bytes_selected,
            bytes_with_orphans: self.bytes_with_orphans,
            caveats: self.caveats.deep_view(),
        }
    }
}

impl DeepView for BrewImpact {
    type V = ImpactRecord;

    open spec fn deep_view(&self) -> ImpactRecord {
        self@
    }
}

/// What removing packages does, as the user sees it.
pub open spec fn impact_record(p: RemovalPreviewValue) -> ImpactRecord {
    ImpactRecord {
        removable: p.removable,
        blocked: blocked_record_list(p.blocked),
        newly_orphaned: p.newly_orphaned,
        confirmed_orphans: p.confirmed_orphans,
        uncertain_orphans: p.uncertain_orphans,
        bytes_selected: p.bytes_selected,
        bytes_with_orphans: p.bytes_with_orphans,
        caveats: p.caveats,
    }
}

impl vstd::std_specs::convert::FromSpecImpl<&cleanup::RemovalPreview> for BrewImpact {
    open spec fn obeys_from_spec() -> bool {
        false
    }

    open spec fn from_spec(x: &cleanup::RemovalPreview) -> BrewImpact {
        arbitrary()
    }
}

impl From<&cleanup::RemovalPreview> for BrewImpact {
    fn from(x: &cleanup::RemovalPreview) -> (r: BrewImpact)
        ensures
            r@ == impact_record(x@),
    {
        BrewImpact {
            removable: copy_strings(&x.removable),
            blocked: blocked_packages(&x.blocked),
            newly_orphaned: copy_strings(&x.newly_orphaned),
            confirmed_orphans: copy_strings(&x.confirmed_orphans),
            uncertain_orphans: copy_strings(&x.uncertain_orphans),
            bytes_selected: x.bytes_selected,
            bytes_with_orphans: x.bytes_with_orphans,
            caveats: copy_strings(&x.caveats),
        }
    }
}

/// What a batch will do, what was refused, and what the look ahead says of it.
#[derive(Clone, Debug, PartialEq, Eq)]
pub struct PlanSummary {
    pub actions: Vec<PlannedActionView>,
    pub refused: Vec<RefusedAction>,
    pub removed: Vec<String>,
    pub remaining: Vec<String>,
    pub follow_up: Vec<String>,
    pub impact: Option<BrewImpact>,
    pub delete_mode: DeleteMode,
    /// The sections that the batch touches.
    pub affected: Vec<SectionId>,
}

/// What a batch will do, what was refused, and what the look ahead says of it, as a value.
#[verifier::ext_equal]
pub struct SummaryRecord {
    pub actions: Seq<ActionRecord>,
    pub refused: Seq<RefusedRecord>,
    pub removed: Seq<Seq<char>>,
    pub remaining: Seq<Seq<char>>,
    pub follow_up: Seq<Seq<char>>,
    pub impact: Option<ImpactRecord>,
    pub delete_mode: DeleteMode,
    pub affected: Seq<SectionId>,
}

impl View for PlanSummary {
    type V = SummaryRecord;

    open spec fn view(&self) -> SummaryRecord {
        SummaryRecord {
            actions: self.actions.deep_view(),
            refused: self.refused.deep_view(),
            removed: self.removed.deep_view(),
            remaining: self.remaining.deep_view(),
            follow_up: self.follow_up.deep_view(),
            impact: self.impact.deep_view(),
            delete_mode: self.delete_mode,
            affected: self.affected@,
        }
    }
}

impl DeepView for PlanSummary {
    type V = SummaryRecord;

    open spec fn deep_view(&self) -> SummaryRecord {
        self@
    }
}

/// The sections of scanners.
pub open spec fn sections_of(ids: Seq<scan::ScannerId>) -> Seq<SectionId> {
    Seq::new(ids.len(), |i: int| section_of(ids[i]))
}

/// The sections of scanners.
pub fn section_ids(ids: &Vec<scan::ScannerId>) -> (r: Vec<SectionId>)
    ensures
        r@ == sections_of(ids@),
{
    let mut out: Vec<SectionId> = Vec::new();
    let mut i: usize = 0;
    while i < ids.len()
        invariant
            i <= ids.len(),
            out@ =~= sections_of(ids@).take(i as int),
        decreases ids.len() - i,
    {
        out.push(SectionId::from(ids[i]));
        i = i + 1;
    }
    assert(out@ =~= sections_of(ids@));
    out
}

/// What a look ahead says of a batch, as the user sees it.
pub open spec fn summary_record(
    report: PreflightReportValue,
    mode: scan::DeleteMode,
    affected: Seq<scan::ScannerId>,
) -> SummaryRecord {
    SummaryRecord {
        actions: action_record_list(report.ok),
        refused: refused_record_list(report.refused),
        removed: report.removed,
        remaining: report.remaining,
        follow_up: report.follow_up,
        impact: match report.brew_preview {
            Some(p) => Some(impact_record(p)),
            None => None,
        },
        delete_mode: delete_mode_of(mode),
        affected: sections_of(affected),
    }
}

/// What a look ahead says of a batch, as the user sees it.
pub fn plan_summary(
    report: &cleanup::PreflightReport,
    delete_mode: scan::DeleteMode,
    affected: &Vec<scan::ScannerId>,
) -> (r: PlanSummary)
    ensures
        r@ == summary_record(report@, delete_mode, affected@),
{
    let impact = match &report.brew_preview {
        Some(p) => Some(BrewImpact::from(p)),
        None => None,
    };
    PlanSummary {
        actions: actions(&report.ok),
        refused: refusals(&report.refused),
        removed: copy_strings(&report.removed),
        remaining: copy_strings(&report.remaining),
        follow_up: copy_strings(&report.follow_up),
        impact,
        delete_mode: DeleteMode::from(delete_mode),
        affected: section_ids(affected),
    }
}

/// What the app is told while a batch runs.
#[derive(Clone, Debug, PartialEq, Eq)]
pub enum ExecEvent {
    PreflightDone { ok: Vec<PlannedActionView>, refused: Vec<RefusedAction> },
    ActionStarted { index: u32 },
    ActionDone { index: u32, ok: bool, message: String },
    Executed {
        cancelled: Vec<PlannedActionView>,
        /// The sections that are scanned again now that the batch has run.
        rescanning: Vec<SectionId>,
        /// The scan in which they report; none where no section was touched.
        rescan_gen: Option<u64>,
    },
    Verifying,
    Finished { summary: String, report_path: Option<String>, report_json: String },
}

/// What the app is told while a batch runs, as a value.
#[verifier::ext_equal]
pub enum ExecRecord {
    PreflightDone { ok: Seq<ActionRecord>, refused: Seq<RefusedRecord> },
    ActionStarted { index: u32 },
    ActionDone { index: u32, ok: bool, message: Seq<char> },
    Executed {
        cancelled: Seq<ActionRecord>,
        rescanning: Seq<SectionId>,
        rescan_gen: Option<u64>,
    },
    Verifying,
    Finished { summary: Seq<char>, report_path: Option<Seq<char>>, report_json: Seq<char> },
}

impl View for ExecEvent {
    type V = ExecRecord;

    open spec fn view(&self) -> ExecRecord {
        match self {
            ExecEvent::PreflightDone { ok, refused } => ExecRecord::PreflightDone {
                ok: ok.deep_view(),
                refused: refused.deep_view(),
            },
            ExecEvent::ActionStarted { index } => ExecRecord::ActionStarted { index: *index },
            ExecEvent::ActionDone { index, ok, message } => ExecRecord::ActionDone {
                index: *index,
                ok: *ok,
                message: message@,
            },
            ExecEvent::Executed { cancelled, rescanning, rescan_gen } => ExecRecord::Executed {
                cancelled: cancelled.deep_view(),
                rescanning: rescanning@,
                rescan_gen: *rescan_gen,
            },
            ExecEvent::Verifying => ExecRecord::Verifying,
            ExecEvent::Finished { summary, report_path, report_json } => ExecRecord::Finished {
                summary: summary@,
                report_path: report_path.deep_view(),
                report_json: report_json@,
            },
        }
    }
}

/// What the app is told of a step of a batch.
pub open spec fn exec_record(ev: cleanup::ExecEvent) -> ExecRecord {
    match ev {
        cleanup::ExecEvent::PreflightDone(report) => ExecRecord::PreflightDone {
            ok: action_record_list(report@.ok),
            refused: refused_record_list(report@.refused),
        },
        cleanup::ExecEvent::ActionStarted(i) => ExecRecord::ActionStarted { index: i as u32 },
        cleanup::ExecEvent::ActionDone(i, Ok(m)) => ExecRecord::ActionDone {
            index: i as u32,
            ok: true,
            message: m@,
        },
        cleanup::ExecEvent::ActionDone(i, Err(e)) => ExecRecord::ActionDone {
            index: i as u32,
            ok: false,
            message: e@,
        },
        cleanup::ExecEvent::Executed { cancelled } => ExecRecord::Executed {
            cancelled: action_record_list(cancelled.deep_view()),
            rescanning: seq![],
            rescan_gen: None,
        },
        cleanup::ExecEvent::Verifying => ExecRecord::Verifying,
        cleanup::ExecEvent::Finished { summary, audit_path, report_json } => ExecRecord::Finished {
            summary: summary@,
            report_path: opt_path_text(audit_path.deep_view()),
            report_json: report_json@,
        },
    }
}

#[verifier::truncate]
fn index_of(i: usize) -> (r: u32)
    ensures
        r == i as u32,
{
    i as u32
}

impl vstd::std_specs::convert::FromSpecImpl<cleanup::ExecEvent> for ExecEvent {
    open spec fn obeys_from_spec() -> bool {
        false
    }

    open spec fn from_spec(x: cleanup::ExecEvent) -> ExecEvent {
        arbitrary()
    }
}

impl From<cleanup::ExecEvent> for ExecEvent {
    fn from(x: cleanup::ExecEvent) -> (r: ExecEvent)
        ensures
            r@ == exec_record(x),
    {
        match x {
            cleanup::ExecEvent::PreflightDone(report) => ExecEvent::PreflightDone {
                ok: actions(&report.ok),
                refused: refusals(&report.refused),
            },
            cleanup::ExecEvent::ActionStarted(i) => ExecEvent::ActionStarted { index: index_of(i) },
            cleanup::ExecEvent::ActionDone(i, result) => match result {
                Ok(m) => ExecEvent::ActionDone { index: index_of(i), ok: true, message: m },
                Err(e) => ExecEvent::ActionDone { index: index_of(i), ok: false, message: e },
            },
            cleanup::ExecEvent::Executed { cancelled } => {
                let r = ExecEvent::Executed {
                    cancelled: actions(&cancelled),
                    rescanning: Vec::new(),
                    rescan_gen: None,
                };
                assert(r@->rescanning =~= seq![]);
                r
            },
            cleanup::ExecEvent::Verifying => ExecEvent::Verifying,
            cleanup::ExecEvent::Finished { summary, audit_path, report_json } => {
                let report_path = path_string(&audit_path);
                ExecEvent::Finished { summary, report_path, report_json }
            },
        }
    }
}

/// The number of a finding, as the engine knows it.
pub fn finding_id(id: u64) -> (r: FindingId)
    ensures
        r == FindingId(id),
{
    FindingId(id)
}

/// One of the largest files of a directory.
#[derive(Clone, Debug, PartialEq, Eq)]
pub struct TopFile {
    pub path: String,
    pub alloc: u64,
}

/// One of the largest files of a directory, as a value.
#[verifier::ext_equal]
pub struct TopFileRecord {
    pub path: Seq<char>,
    pub alloc: u64,
}

impl View for TopFile {
    type V = TopFileRecord;

    open spec fn view(&self) -> TopFileRecord {
        TopFileRecord {
            path: self.path@,
            alloc: self.alloc,
        }
    }
}

impl DeepView for TopFile {
    type V = TopFileRecord;

    open spec fn deep_view(&self) -> TopFileRecord {
        self@
    }
}

/// A file, as the app shows it.
pub open spec fn top_file_record(f: BigFileView) -> TopFileRecord {
    TopFileRecord { path: path_text(f.path), alloc: f.alloc }
}

impl vstd::std_specs::convert::FromSpecImpl<&scan::BigFile> for TopFile {
    open spec fn obeys_from_spec() -> bool {
        false
    }

    open spec fn from_spec(x: &scan::BigFile) -> TopFile {
        arbitrary()
    }
}

impl From<&scan::BigFile> for TopFile {
    fn from(x: &scan::BigFile) -> (r: TopFile)
        ensures
            r@ == top_file_record(x@),
    {
        TopFile { path: x.path.text(), alloc: x.alloc }
    }
}

/// One directory of a walked tree, without what lies in it.
#[derive(Clone, Debug, PartialEq, Eq)]
pub struct DirEntry {
    pub path: String,
    pub name: String,
    pub alloc: u64,
    pub apparent: u64,
    pub files: u64,
    pub dirs: u64,
    pub errors: u64,
    pub has_children: bool,
}

/// One directory of a walked tree, without what lies in it, as a value.
#[verifier::ext_equal]
pub struct DirEntryRecord {
    pub path: Seq<char>,
    pub name: Seq<char>,
    pub alloc: u64,
    pub apparent: u64,
    pub files: u64,
    pub dirs: u64,
    pub errors: u64,
    pub has_children: bool,
}

impl View for DirEntry {
    type V = DirEntryRecord;

    open spec fn view(&self) -> DirEntryRecord {
        DirEntryRecord {
            path: self.path@,
            name: self.name@,
            alloc: self.alloc,
            apparent: self.apparent,
            files: self.files,
            dirs: self.dirs,
            errors: self.errors,
            has_children: self.has_children,
        }
    }
}

impl DeepView for DirEntry {
    type V = DirEntryRecord;

    open spec fn deep_view(&self) -> DirEntryRecord {
        self@
    }
}

/// A directory, as the app shows it.
pub open spec fn dir_entry_record(s: SummaryView) -> DirEntryRecord {
    DirEntryRecord {
        path: path_text(s.path),
        name: s.name,
        alloc: s.alloc,
        apparent: s.apparent,
        files: s.files,
        dirs: s.dirs,
        errors: s.errors,
        has_children: s.child_count > 0,
    }
}

impl vstd::std_specs::convert::FromSpecImpl<&scan::DirNodeSummary> for DirEntry {
    open spec fn obeys_from_spec() -> bool {
        false
    }

    open spec fn from_spec(x: &scan::DirNodeSummary) -> DirEntry {
        arbitrary()
    }
}

impl From<&scan::DirNodeSummary> for DirEntry {
    fn from(x: &scan::DirNodeSummary) -> (r: DirEntry)
        ensures
            r@ == dir_entry_record(x@),
    {
        DirEntry {
            path: x.path.text(),
            name: x.name.clone(),
            alloc: x.alloc,
            apparent: x.apparent,
            files: x.files,
            dirs: x.dirs,
            errors: x.errors,
            has_children: x.child_count > 0,
        }
    }
}

/// The counters of one walked root.
#[derive(Clone, Debug, PartialEq, Eq)]
pub struct DirTreeStats {
    pub root: String,
    pub files: u64,
    pub dirs: u64,
    pub bytes: u64,
    pub errors: u64,
    pub complete: bool,
    pub elapsed_ms: u64,
}

/// Which way a disk is looked at.
#[derive(Clone, Copy, Debug, PartialEq, Eq, Hash, Structural)]
pub enum Axis {
    Projects,
    AppStorage,
}

/// Which way a disk is looked at.
pub open spec fn axis_of(x: attrib::Axis) -> Axis {
    match x {
        attrib::Axis::Projects => Axis::Projects,
        attrib::Axis::AppStorage => Axis::AppStorage,
    }
}

impl vstd::std_specs::convert::FromSpecImpl<attrib::Axis> for Axis {
    open spec fn obeys_from_spec() -> bool {
        true
    }

    open spec fn from_spec(x: attrib::Axis) -> Axis {
        axis_of(x)
    }
}

impl From<attrib::Axis> for Axis {
    fn from(x: attrib::Axis) -> (r: Axis) {
        match x {
            attrib::Axis::Projects => Axis::Projects,
            attrib::Axis::AppStorage => Axis::AppStorage,
        }
    }
}

/// Which way a disk is looked at.
pub open spec fn core_axis_of(x: Axis) -> attrib::Axis {
    match x {
        Axis::Projects => attrib::Axis::Projects,
        Axis::AppStorage => attrib::Axis::AppStorage,
    }
}

impl vstd::std_specs::convert::FromSpecImpl<Axis> for attrib::Axis {
    open spec fn obeys_from_spec() -> bool {
        true
    }

    open spec fn from_spec(x: Axis) -> attrib::Axis {
        core_axis_of(x)
    }
}

impl From<Axis> for attrib::Axis {
    fn from(x: Axis) -> (r: attrib::Axis) {
        match x {
            Axis::Projects => attrib::Axis::Projects,
            Axis::AppStorage => attrib::Axis::AppStorage,
        }
    }
}

/// What sort of thing an owner is.
#[derive(Clone, Copy, Debug, PartialEq, Eq, Structural)]
pub enum OwnerKind {
    Project,
    App,
    Formula,
    Homebrew,
    Tool,
    Baseline,
    Unattributed,
}

/// What sort of thing an owner is.
pub open spec fn owner_kind_of(x: attrib::OwnerKind) -> OwnerKind {
    match x {
        attrib::OwnerKind::Project => OwnerKind::Project,
        attrib::OwnerKind::App => OwnerKind::App,
        attrib::OwnerKind::Formula => OwnerKind::Formula,
        attrib::OwnerKind::Homebrew => OwnerKind::Homebrew,
        attrib::OwnerKind::Tool => OwnerKind::Tool,
        attrib::OwnerKind::Baseline => OwnerKind::Baseline,
        attrib::OwnerKind::Unattributed => OwnerKind::Unattributed,
    }
}

impl vstd::std_specs::convert::FromSpecImpl<attrib::OwnerKind> for OwnerKind {
    open spec fn obeys_from_spec() -> bool {
        true
    }

    open spec fn from_spec(x: attrib::OwnerKind) -> OwnerKind {
        owner_kind_of(x)
    }
}

impl From<attrib::OwnerKind> for OwnerKind {
    fn from(x: attrib::OwnerKind) -> (r: OwnerKind) {
        match x {
            attrib::OwnerKind::Project => OwnerKind::Project,
            attrib::OwnerKind::App => OwnerKind::App,
            attrib::OwnerKind::Formula => OwnerKind::Formula,
            attrib::OwnerKind::Homebrew => OwnerKind::Homebrew,
            attrib::OwnerKind::Tool => OwnerKind::Tool,
            attrib::OwnerKind::Baseline => OwnerKind::Baseline,
            attrib::OwnerKind::Unattributed => OwnerKind::Unattributed,
        }
    }
}

/// What resource an entry stands for.
#[derive(Clone, Copy, Debug, PartialEq, Eq, Structural)]
pub enum EntryKind {
    WorkingTree,
    Artifacts,
    Worktree,
    PackageCache,
    Toolchain,
    Xcode,
    Simulator,
    Docker,
    AgentState,
    EditorState,
    ProjectCache,
    AppBundle,
    Container,
    GroupContainer,
    AppSupport,
    Cache,
    Preferences,
    Logs,
    WebData,
    SavedState,
    DotDir,
    Data,
    Other,
}

/// What resource an entry stands for.
pub open spec fn entry_kind_of(x: attrib::EntryKind) -> EntryKind {
    match x {
        attrib::EntryKind::WorkingTree => EntryKind::WorkingTree,
        attrib::EntryKind::Artifacts => EntryKind::Artifacts,
        attrib::EntryKind::Worktree => EntryKind::Worktree,
        attrib::EntryKind::PackageCache => EntryKind::PackageCache,
        attrib::EntryKind::Toolchain => EntryKind::Toolchain,
        attrib::EntryKind::Xcode => EntryKind::Xcode,
        attrib::EntryKind::Simulator => EntryKind::Simulator,
        attrib::EntryKind::Docker => EntryKind::Docker,
        attrib::EntryKind::AgentState => EntryKind::AgentState,
        attrib::EntryKind::EditorState => EntryKind::EditorState,
        attrib::EntryKind::ProjectCache => EntryKind::ProjectCache,
        attrib::EntryKind::AppBundle => EntryKind::AppBundle,
        attrib::EntryKind::Container => EntryKind::Container,
        attrib::EntryKind::GroupContainer => EntryKind::GroupContainer,
        attrib::EntryKind::AppSupport => EntryKind::AppSupport,
        attrib::EntryKind::Cache => EntryKind::Cache,
        attrib::EntryKind::Preferences => EntryKind::Preferences,
        attrib::EntryKind::Logs => EntryKind::Logs,
        attrib::EntryKind::WebData => EntryKind::WebData,
        attrib::EntryKind::SavedState => EntryKind::SavedState,
        attrib::EntryKind::DotDir => EntryKind::DotDir,
        attrib::EntryKind::Data => EntryKind::Data,
        attrib::EntryKind::Other => EntryKind::Other,
    }
}

impl vstd::std_specs::convert::FromSpecImpl<attrib::EntryKind> for EntryKind {
    open spec fn obeys_from_spec() -> bool {
        true
    }

    open spec fn from_spec(x: attrib::EntryKind) -> EntryKind {
        entry_kind_of(x)
    }
}

impl From<attrib::EntryKind> for EntryKind {
    fn from(x: attrib::EntryKind) -> (r: EntryKind) {
        match x {
            attrib::EntryKind::WorkingTree => EntryKind::WorkingTree,
            attrib::EntryKind::Artifacts => EntryKind::Artifacts,
            attrib::EntryKind::Worktree => EntryKind::Worktree,
            attrib::EntryKind::PackageCache => EntryKind::PackageCache,
            attrib::EntryKind::Toolchain => EntryKind::Toolchain,
            attrib::EntryKind::Xcode => EntryKind::Xcode,
            attrib::EntryKind::Simulator => EntryKind::Simulator,
            attrib::EntryKind::Docker => EntryKind::Docker,
            attrib::EntryKind::AgentState => EntryKind::AgentState,
            attrib::EntryKind::EditorState => EntryKind::EditorState,
            attrib::EntryKind::ProjectCache => EntryKind::ProjectCache,
            attrib::EntryKind::AppBundle => EntryKind::AppBundle,
            attrib::EntryKind::Container => EntryKind::Container,
            attrib::EntryKind::GroupContainer => EntryKind::GroupContainer,
            attrib::EntryKind::AppSupport => EntryKind::AppSupport,
            attrib::EntryKind::Cache => EntryKind::Cache,
            attrib::EntryKind::Preferences => EntryKind::Preferences,
            attrib::EntryKind::Logs => EntryKind::Logs,
            attrib::EntryKind::WebData => EntryKind::WebData,
            attrib::EntryKind::SavedState => EntryKind::SavedState,
            attrib::EntryKind::DotDir => EntryKind::DotDir,
            attrib::EntryKind::Data => EntryKind::Data,
            attrib::EntryKind::Other => EntryKind::Other,
        }
    }
}

/// How sure a claim is.
#[derive(Clone, Copy, Debug, PartialEq, Eq, Structural)]
pub enum EvidenceTier {
    Exact,
    NameMatch,
    Observed,
    EcosystemDefault,
    Curated,
}

/// How sure a claim is.
pub open spec fn tier_of(x: attrib::EvidenceTier) -> EvidenceTier {
    match x {
        attrib::EvidenceTier::Exact => EvidenceTier::Exact,
        attrib::EvidenceTier::NameMatch => EvidenceTier::NameMatch,
        attrib::EvidenceTier::Observed => EvidenceTier::Observed,
        attrib::EvidenceTier::EcosystemDefault => EvidenceTier::EcosystemDefault,
        attrib::EvidenceTier::Curated => EvidenceTier::Curated,
    }
}

impl vstd::std_specs::convert::FromSpecImpl<attrib::EvidenceTier> for EvidenceTier {
    open spec fn obeys_from_spec() -> bool {
        true
    }

    open spec fn from_spec(x: attrib::EvidenceTier) -> EvidenceTier {
        tier_of(x)
    }
}

impl From<attrib::EvidenceTier> for EvidenceTier {
    fn from(x: attrib::EvidenceTier) -> (r: EvidenceTier) {
        match x {
            attrib::EvidenceTier::Exact => EvidenceTier::Exact,
            attrib::EvidenceTier::NameMatch => EvidenceTier::NameMatch,
            attrib::EvidenceTier::Observed => EvidenceTier::Observed,
            attrib::EvidenceTier::EcosystemDefault => EvidenceTier::EcosystemDefault,
            attrib::EvidenceTier::Curated => EvidenceTier::Curated,
        }
    }
}

/// What sort of program a process runs.
#[derive(Clone, Copy, Debug, PartialEq, Eq, Structural)]
pub enum ProcKind {
    Shell,
    Server,
    Other,
}

/// What sort of program a process runs.
pub open spec fn proc_kind_of(x: attrib::ProcKind) -> ProcKind {
    match x {
        attrib::ProcKind::Shell => ProcKind::Shell,
        attrib::ProcKind::Server => ProcKind::Server,
        attrib::ProcKind::Other => ProcKind::Other,
    }
}

impl vstd::std_specs::convert::FromSpecImpl<attrib::ProcKind> for ProcKind {
    open spec fn obeys_from_spec() -> bool {
        true
    }

    open spec fn from_spec(x: attrib::ProcKind) -> ProcKind {
        proc_kind_of(x)
    }
}

impl From<attrib::ProcKind> for ProcKind {
    fn from(x: attrib::ProcKind) -> (r: ProcKind) {
        match x {
            attrib::ProcKind::Shell => ProcKind::Shell,
            attrib::ProcKind::Server => ProcKind::Server,
            attrib::ProcKind::Other => ProcKind::Other,
        }
    }
}

/// One row's identity.
#[derive(Clone, Debug, PartialEq, Eq)]
pub struct Owner {
    pub key: String,
    pub kind: OwnerKind,
    pub name: String,
    pub path: Option<String>,
}

/// One row's identity, as a value.
#[verifier::ext_equal]
pub struct OwnerRecord {
    pub key: Seq<char>,
    pub kind: OwnerKind,
    pub name: Seq<char>,
    pub path: Option<Seq<char>>,
}

impl View for Owner {
    type V = OwnerRecord;

    open spec fn view(&self) -> OwnerRecord {
        OwnerRecord {
            key: self.key@,
            kind: self.kind,
            name: self.name@,
            path: self.path.deep_view(),
        }
    }
}

impl DeepView for Owner {
    type V = OwnerRecord;

    open spec fn deep_view(&self) -> OwnerRecord {
        self@
    }
}

/// An owner, as the app shows it.
pub open spec fn owner_record(x: OwnerView) -> OwnerRecord {
    OwnerRecord {
        key: x.key,
        kind: owner_kind_of(x.kind),
        name: x.name,
        path: opt_path_text(x.path),
    }
}

impl vstd::std_specs::convert::FromSpecImpl<&attrib::Owner> for Owner {
    open spec fn obeys_from_spec() -> bool {
        false
    }

    open spec fn from_spec(x: &attrib::Owner) -> Owner {
        arbitrary()
    }
}

impl From<&attrib::Owner> for Owner {
    fn from(x: &attrib::Owner) -> (r: Owner)
        ensures
            r@ == owner_record(x@),
    {
        Owner {
            key: x.key.clone(),
            kind: OwnerKind::from(x.kind),
            name: x.name.clone(),
            path: path_string(&x.path),
        }
    }
}

/// A live process that works inside a project.
#[derive(Clone, Debug, PartialEq, Eq)]
pub struct Proc {
    pub pid: u32,
    pub name: String,
    pub kind: ProcKind,
    pub cwd: String,
}

/// A live process that works inside a project, as a value.
#[verifier::ext_equal]
pub struct ProcRecord {
    pub pid: u32,
    pub name: Seq<char>,
    pub kind: ProcKind,
    pub cwd: Seq<char>,
}

impl View for Proc {
    type V = ProcRecord;

    open spec fn view(&self) -> ProcRecord {
        ProcRecord {
            pid: self.pid,
            name: self.name@,
            kind: self.kind,
            cwd: self.cwd@,
        }
    }
}

impl DeepView for Proc {
    type V = ProcRecord;

    open spec fn deep_view(&self) -> ProcRecord {
        self@
    }
}

/// A process, as the app shows it.
pub open spec fn proc_record(x: ProcView) -> ProcRecord {
    ProcRecord { pid: x.pid, name: x.name, kind: proc_kind_of(x.kind), cwd: path_text(x.cwd) }
}

impl vstd::std_specs::convert::FromSpecImpl<&attrib::Proc> for Proc {
    open spec fn obeys_from_spec() -> bool {
        false
    }

    open spec fn from_spec(x: &attrib::Proc) -> Proc {
        arbitrary()
    }
}

impl From<&attrib::Proc> for Proc {
    fn from(x: &attrib::Proc) -> (r: Proc)
        ensures
            r@ == proc_record(x@),
    {
        Proc {
            pid: x.pid,
            name: x.name.clone(),
            kind: ProcKind::from(x.kind),
            cwd: x.cwd.text(),
        }
    }
}

/// Processes, as the app shows them.
pub open spec fn proc_record_list(s: Seq<ProcView>) -> Seq<ProcRecord> {
    Seq::new(s.len(), |i: int| proc_record(s[i]))
}

/// Processes, as the app shows them.
pub fn procs(v: &Vec<attrib::Proc>) -> (r: Vec<Proc>)
    ensures
        r.deep_view() == proc_record_list(v.deep_view()),
{
    let mut out: Vec<Proc> = Vec::new();
    let mut i: usize = 0;
    while i < v.len()
        invariant
            i <= v.len(),
            out.len() == i,
            forall|j: int| 0 <= j < i ==> (#[trigger] out@[j])@ == proc_record(v@[j]@),
        decreases v.len() - i,
    {
        let x = Proc::from(&v[i]);
        out.push(x);
        i = i + 1;
    }
    assert(out.deep_view() =~= proc_record_list(v.deep_view()));
    out
}

/// One accounted path.
#[derive(Clone, Debug, PartialEq, Eq)]
pub struct FootprintEntry {
    pub path: String,
    pub kind: EntryKind,
    pub bytes: u64,
    pub raw_bytes: u64,
    pub owners: Vec<String>,
    pub tier: EvidenceTier,
    pub evidence: String,
    pub label: String,
    pub baseline: bool,
    pub clone_of_store: bool,
    pub virtual_bytes: bool,
    pub is_unsized: bool,
    pub stale: bool,
    pub finding: Option<u64>,
    pub reason: Option<String>,
}

/// One accounted path, as a value.
#[verifier::ext_equal]
pub struct EntryRecord {
    pub path: Seq<char>,
    pub kind: EntryKind,
    pub bytes: u64,
    pub raw_bytes: u64,
    pub owners: Seq<Seq<char>>,
    pub tier: EvidenceTier,
    pub evidence: Seq<char>,
    pub label: Seq<char>,
    pub baseline: bool,
    pub clone_of_store: bool,
    pub virtual_bytes: bool,
    pub is_unsized: bool,
    pub stale: bool,
    pub finding: Option<u64>,
    pub reason: Option<Seq<char>>,
}

impl View for FootprintEntry {
    type V = EntryRecord;

    open spec fn view(&self) -> EntryRecord {
        EntryRecord {
            path: self.path@,
            kind: self.kind,
            bytes: self.bytes,
            raw_bytes: self.raw_bytes,
            owners: self.owners.deep_view(),
            tier: self.tier,
            evidence: self.evidence@,
            label: self.label@,
            baseline: self.baseline,
            clone_of_store: self.clone_of_store,
            virtual_bytes: self.virtual_bytes,
            is_unsized: self.is_unsized,
            stale: self.stale,
            finding: self.finding,
            reason: self.reason.deep_view(),
        }
    }
}

impl DeepView for FootprintEntry {
    type V = EntryRecord;

    open spec fn deep_view(&self) -> EntryRecord {
        self@
    }
}

/// An accounted path, as the app shows it.
pub open spec fn entry_record(x: EntryView) -> EntryRecord {
    EntryRecord {
        path: path_text(x.path),
        kind: entry_kind_of(x.kind),
        bytes: x.bytes,
        raw_bytes: x.raw_bytes,
        owners: x.owners,
        tier: tier_of(x.tier),
        evidence: x.evidence,
        label: x.label,
        baseline: x.baseline,
        clone_of_store: x.clone_of_store,
        virtual_bytes: x.virtual_bytes,
        is_unsized: x.is_unsized,
        stale: x.stale,
        finding: match x.finding {
            Some(id) => Some(id.0),
            None => None,
        },
        reason: x.reason,
    }
}

impl vstd::std_specs::convert::FromSpecImpl<&attrib::FootprintEntry> for FootprintEntry {
    open spec fn obeys_from_spec() -> bool {
        false
    }

    open spec fn from_spec(x: &attrib::FootprintEntry) -> FootprintEntry {
        arbitrary()
    }
}

impl From<&attrib::FootprintEntry> for FootprintEntry {
    fn from(x: &attrib::FootprintEntry) -> (r: FootprintEntry)
        ensures
            r@ == entry_record(x@),
    {
        let finding = match x.finding {
            Some(id) => Some(id.0),
            None => None,
        };
        FootprintEntry {
            path: x.path.text(),
            kind: EntryKind::from(x.kind),
            bytes: x.bytes,
            raw_bytes: x.raw_bytes,
            owners: copy_strings(&x.owners),
            tier: EvidenceTier::from(x.tier),
            evidence: x.evidence.clone(),
            label: x.label.clone(),
            baseline: x.baseline,
            clone_of_store: x.clone_of_store,
            virtual_bytes: x.virtual_bytes,
            is_unsized: x.is_unsized,
            stale: x.stale,
            finding,
            reason: copy_opt_text(&x.reason),
        }
    }
}

/// Accounted paths, as the app shows them.
pub open spec fn entry_record_list(s: Seq<EntryView>) -> Seq<EntryRecord> {
    Seq::new(s.len(), |i: int| entry_record(s[i]))
}

/// Accounted paths, as the app shows them.
pub fn entries(v: &Vec<attrib::FootprintEntry>) -> (r: Vec<FootprintEntry>)
    ensures
        r.deep_view() == entry_record_list(v.deep_view()),
{
    let mut out: Vec<FootprintEntry> = Vec::new();
    let mut i: usize = 0;
    while i < v.len()
        invariant
            i <= v.len(),
            out.len() == i,
            forall|j: int| 0 <= j < i ==> (#[trigger] out@[j])@ == entry_record(v@[j]@),
        decreases v.len() - i,
    {
        let x = FootprintEntry::from(&v[i]);
        out.push(x);
        i = i + 1;
    }
    assert(out.deep_view() =~= entry_record_list(v.deep_view()));
    out
}

/// The entries of one kind in an owner's breakdown.
#[derive(Clone, Debug, PartialEq, Eq)]
pub struct FootprintGroup {
    pub kind: EntryKind,
    pub bytes: u64,
    pub entries: Vec<FootprintEntry>,
}

/// The entries of one kind in an owner's breakdown, as a value.
#[verifier::ext_equal]
pub struct GroupRecord {
    pub kind: EntryKind,
    pub bytes: u64,
    pub entries: Seq<EntryRecord>,
}

impl View for FootprintGroup {
    type V = GroupRecord;

    open spec fn view(&self) -> GroupRecord {
        GroupRecord {
            kind: self.kind,
            bytes: self.bytes,
            entries: self.entries.deep_view(),
        }
    }
}

impl DeepView for FootprintGroup {
    type V = GroupRecord;

    open spec fn deep_view(&self) -> GroupRecord {
        self@
    }
}

/// The entries of one kind, as the app shows them.
pub open spec fn group_record(x: GroupView) -> GroupRecord {
    GroupRecord {
        kind: entry_kind_of(x.kind),
        bytes: x.bytes,
        entries: entry_record_list(x.entries),
    }
}

impl vstd::std_specs::convert::FromSpecImpl<&attrib::FootprintGroup> for FootprintGroup {
    open spec fn obeys_from_spec() -> bool {
        false
    }

    open spec fn from_spec(x: &attrib::FootprintGroup) -> FootprintGroup {
        arbitrary()
    }
}

impl From<&attrib::FootprintGroup> for FootprintGroup {
    fn from(x: &attrib::FootprintGroup) -> (r: FootprintGroup)
        ensures
            r@ == group_record(x@),
    {
        FootprintGroup {
            kind: EntryKind::from(x.kind),
            bytes: x.bytes,
            entries: entries(&x.entries),
        }
    }
}

/// The entries of all kinds, as the app shows them.
pub open spec fn group_record_list(s: Seq<GroupView>) -> Seq<GroupRecord> {
    Seq::new(s.len(), |i: int| group_record(s[i]))
}

/// The entries of all kinds, as the app shows them.
pub fn groups(v: &Vec<attrib::FootprintGroup>) -> (r: Vec<FootprintGroup>)
    ensures
        r.deep_view() == group_record_list(v.deep_view()),
{
    let mut out: Vec<FootprintGroup> = Vec::new();
    let mut i: usize = 0;
    while i < v.len()
        invariant
            i <= v.len(),
            out.len() == i,
            forall|j: int| 0 <= j < i ==> (#[trigger] out@[j])@ == group_record(v@[j]@),
        decreases v.len() - i,
    {
        let x = FootprintGroup::from(&v[i]);
        out.push(x);
        i = i + 1;
    }
    assert(out.deep_view() =~= group_record_list(v.deep_view()));
    out
}

/// One owner's row.
#[derive(Clone, Debug, PartialEq, Eq)]
pub struct Footprint {
    pub finding: u64,
    pub owner: Owner,
    pub exclusive: u64,
    pub shared: u64,
    pub reach: u64,
    pub baseline_share: u64,
    pub groups: Vec<FootprintGroup>,
    pub worktrees: Vec<String>,
    pub processes: Vec<Proc>,
    pub ports: Vec<u16>,
    pub clone_note: bool,
}

/// One owner's row, as a value.
#[verifier::ext_equal]
pub struct FootprintRecord {
    pub finding: u64,
    pub owner: OwnerRecord,
    pub exclusive: u64,
    pub shared: u64,
    pub reach: u64,
    pub baseline_share: u64,
    pub groups: Seq<GroupRecord>,
    pub worktrees: Seq<Seq<char>>,
    pub processes: Seq<ProcRecord>,
    pub ports: Seq<u16>,
    pub clone_note: bool,
}

impl View for Footprint {
    type V = FootprintRecord;

    open spec fn view(&self) -> FootprintRecord {
        FootprintRecord {
            finding: self.finding,
            owner: self.owner@,
            exclusive: self.exclusive,
            shared: self.shared,
            reach: self.reach,
            baseline_share: self.baseline_share,
            groups: self.groups.deep_view(),
            worktrees: self.worktrees.deep_view(),
            processes: self.processes.deep_view(),
            ports: self.ports@,
            clone_note: self.clone_note,
        }
    }
}

impl DeepView for Footprint {
    type V = FootprintRecord;

    open spec fn deep_view(&self) -> FootprintRecord {
        self@
    }
}

/// Paths, as texts.
pub open spec fn path_texts(s: Seq<Seq<Seq<char>>>) -> Seq<Seq<char>> {
    Seq::new(s.len(), |i: int| path_text(s[i]))
}

fn path_strings(v: &Vec<FilePath>) -> (r: Vec<String>)
    ensures
        r.deep_view() == path_texts(v.deep_view()),
{
    let mut out: Vec<String> = Vec::new();
    let mut i: usize = 0;
    while i < v.len()
        invariant
            i <= v.len(),
            out.len() == i,
            forall|j: int| 0 <= j < i ==> (#[trigger] out@[j])@ == path_text(v@[j]@),
        decreases v.len() - i,
    {
        let t = v[i].text();
        out.push(t);
        i = i + 1;
    }
    assert(out.deep_view() =~= path_texts(v.deep_view()));
    out
}

fn copy_ports(v: &Vec<u16>) -> (r: Vec<u16>)
    ensures
        r@ == v@,
{
    let mut out: Vec<u16> = Vec::new();
    let mut i: usize = 0;
    while i < v.len()
        invariant
            i <= v.len(),
            out@ =~= v@.take(i as int),
        decreases v.len() - i,
    {
        out.push(v[i]);
        i = i + 1;
    }
    assert(out@ =~= v@);
    out
}

/// A row, as the app shows it.
pub open spec fn footprint_record(x: FootprintView) -> FootprintRecord {
    FootprintRecord {
        finding: x.finding.0,
        owner: owner_record(x.owner),
        exclusive: x.exclusive,
        shared: x.shared,
        reach: x.reach,
        baseline_share: x.baseline_share,
        groups: group_record_list(x.groups),
        worktrees: path_texts(x.worktrees),
        processes: proc_record_list(x.processes),
        ports: x.ports,
        clone_note: x.clone_note,
    }
}

impl vstd::std_specs::convert::FromSpecImpl<&attrib::Footprint> for Footprint {
    open spec fn obeys_from_spec() -> bool {
        false
    }

    open spec fn from_spec(x: &attrib::Footprint) -> Footprint {
        arbitrary()
    }
}

impl From<&attrib::Footprint> for Footprint {
    fn from(x: &attrib::Footprint) -> (r: Footprint)
        ensures
            r@ == footprint_record(x@),
    {
        Footprint {
            finding: x.finding.0,
            owner: Owner::from(&x.owner),
            exclusive: x.exclusive,
            shared: x.shared,
            reach: x.reach,
            baseline_share: x.baseline_share,
            groups: groups(&x.groups),
            worktrees: path_strings(&x.worktrees),
            processes: procs(&x.processes),
            ports: copy_ports(&x.ports),
            clone_note: x.clone_note,
        }
    }
}

/// What an axis says beside its rows.
#[derive(Clone, Debug, PartialEq, Eq)]
pub struct FootprintBuckets {
    pub axis: Axis,
    pub baseline: Vec<FootprintEntry>,
    pub unattributed: Vec<FootprintEntry>,
    pub disk_total: u64,
    pub attributed_total: u64,
    pub missing_deps: Vec<SectionId>,
}

/// What an axis says beside its rows, as a value.
#[verifier::ext_equal]
pub struct BucketsRecord {
    pub axis: Axis,
    pub baseline: Seq<EntryRecord>,
    pub unattributed: Seq<EntryRecord>,
    pub disk_total: u64,
    pub attributed_total: u64,
    pub missing_deps: Seq<SectionId>,
}

impl View for FootprintBuckets {
    type V = BucketsRecord;

    open spec fn view(&self) -> BucketsRecord {
        BucketsRecord {
            axis: self.axis,
            baseline: self.baseline.deep_view(),
            unattributed: self.unattributed.deep_view(),
            disk_total: self.disk_total,
            attributed_total: self.attributed_total,
            missing_deps: self.missing_deps@,
        }
    }
}

impl DeepView for FootprintBuckets {
    type V = BucketsRecord;

    open spec fn deep_view(&self) -> BucketsRecord {
        self@
    }
}

/// What an axis says beside its rows, as the app shows it.
pub open spec fn buckets_record(x: SetView) -> BucketsRecord {
    BucketsRecord {
        axis: axis_of(x.axis),
        baseline: entry_record_list(x.baseline),
        unattributed: entry_record_list(x.unattributed),
        disk_total: x.disk_total,
        attributed_total: x.attributed_total,
        missing_deps: sections_of(x.missing_deps),
    }
}

impl vstd::std_specs::convert::FromSpecImpl<&attrib::FootprintSet> for FootprintBuckets {
    open spec fn obeys_from_spec() -> bool {
        false
    }

    open spec fn from_spec(x: &attrib::FootprintSet) -> FootprintBuckets {
        arbitrary()
    }
}

impl From<&attrib::FootprintSet> for FootprintBuckets {
    fn from(x: &attrib::FootprintSet) -> (r: FootprintBuckets)
        ensures
            r@ == buckets_record(x@),
    {
        FootprintBuckets {
            axis: Axis::from(x.axis),
            baseline: entries(&x.baseline),
            unattributed: entries(&x.unattributed),
            disk_total: x.disk_total,
            attributed_total: x.attributed_total,
            missing_deps: section_ids(&x.missing_deps),
        }
    }
}

/// A section and its scanner stand for each other.
pub proof fn law_sections_and_scanners_stand_for_each_other(id: scan::ScannerId, section: SectionId)
    ensures
        scanner_of(section_of(id)) == id,
        section_of(scanner_of(section)) == section,
{
}

/// The two ways to name an axis stand for each other.
pub proof fn law_axes_stand_for_each_other(axis: attrib::Axis, shown: Axis)
    ensures
        core_axis_of(axis_of(axis)) == axis,
        axis_of(core_axis_of(shown)) == shown,
{
}

} // verus!
