//! What holds of the records that are handed to the interface: they say what the values say.

use vstd::prelude::*;

use crate::attribution::model as attrib;
use crate::attribution::model::{EntryView, FootprintView, SetView};
use crate::fspath::path_text;
use crate::scan;
use crate::scan::FindingView;

use super::mapping::{
    axis_of, buckets_record, core_axis_of, delete_mode_of, entry_kind_of, entry_record,
    entry_record_list, finding_record, footprint_record, kind_of, owner_kind_of, proc_kind_of,
    scanner_of, section_of, severity_of, tier_of, Axis, EntryRecord, SectionId,
};

verus! {

/// Sections and scanners stand for each other.
pub proof fn law_sections_are_scanners(x: scan::ScannerId, s: SectionId)
    ensures
        scanner_of(section_of(x)) == x,
        section_of(scanner_of(s)) == s,
        x is Projects <==> section_of(x) is Projects,
        x is AppStorage <==> section_of(x) is AppStorage,
        x is Fs <==> section_of(x) is Fs,
        x is System <==> section_of(x) is System,
        x is Docker <==> section_of(x) is Docker,
        x is Brew <==> section_of(x) is Brew,
        x is Apps <==> section_of(x) is Apps,
{
}

/// The two axes are told apart.
pub proof fn law_axes_are_kept(x: attrib::Axis, y: Axis)
    ensures
        core_axis_of(axis_of(x)) == x,
        axis_of(core_axis_of(y)) == y,
        x is Projects <==> axis_of(x) is Projects,
{
}

/// How grave a finding is, its record says.
pub proof fn law_records_are_as_grave(x: scan::Severity)
    ensures
        x is Info <==> severity_of(x) is Info,
        x is Attention <==> severity_of(x) is Attention,
        x is Reclaimable <==> severity_of(x) is Reclaimable,
        x is Warning <==> severity_of(x) is Warning,
{
}

/// What kind a finding is, its record says.
pub proof fn law_records_are_of_the_same_kind(x: scan::FindingKind)
    ensures
        x is SystemMetric <==> kind_of(x) is SystemMetric,
        x is ProcessResource <==> kind_of(x) is ProcessResource,
        x is DiskCategory <==> kind_of(x) is DiskCategory,
        x is App <==> kind_of(x) is App,
        x is Project <==> kind_of(x) is Project,
        x is AppOwner <==> kind_of(x) is AppOwner,
        x is ProjectBucket <==> kind_of(x) is ProjectBucket,
        x is AppStorageBucket <==> kind_of(x) is AppStorageBucket,
        x is BrewFormula <==> kind_of(x) is BrewFormula,
        x is BrewCask <==> kind_of(x) is BrewCask,
        x is GlobalTool <==> kind_of(x) is GlobalTool,
        x is CommandResolution <==> kind_of(x) is CommandResolution,
        x is ToolCoverage <==> kind_of(x) is ToolCoverage,
        x is BuildArtifact <==> kind_of(x) is BuildArtifact,
        x is CacheDir <==> kind_of(x) is CacheDir,
        x is LaunchdItem <==> kind_of(x) is LaunchdItem,
        x is PathEntry <==> kind_of(x) is PathEntry,
        x is RuntimeVersion <==> kind_of(x) is RuntimeVersion,
        x is DockerObject <==> kind_of(x) is DockerObject,
        x is PortListener <==> kind_of(x) is PortListener,
        x is GitRepo <==> kind_of(x) is GitRepo,
        x is Simulator <==> kind_of(x) is Simulator,
        x is IosDevice <==> kind_of(x) is IosDevice,
        x is IosApp <==> kind_of(x) is IosApp,
        x is SshKey <==> kind_of(x) is SshKey,
        x is IosBackup <==> kind_of(x) is IosBackup,
        x is LocalSnapshot <==> kind_of(x) is LocalSnapshot,
        x is LargeFile <==> kind_of(x) is LargeFile,
        x is TmDestination <==> kind_of(x) is TmDestination,
        x is TmExclusion <==> kind_of(x) is TmExclusion,
        x is TmExclusionCandidate <==> kind_of(x) is TmExclusionCandidate,
        x is TmBackupEstimate <==> kind_of(x) is TmBackupEstimate,
        x is TmStaleMount <==> kind_of(x) is TmStaleMount,
        x is TmPurgeable <==> kind_of(x) is TmPurgeable,
{
}

/// What kind an owner is, its record says.
pub proof fn law_owners_are_of_the_same_kind(x: attrib::OwnerKind)
    ensures
        x is Project <==> owner_kind_of(x) is Project,
        x is App <==> owner_kind_of(x) is App,
        x is Formula <==> owner_kind_of(x) is Formula,
        x is Homebrew <==> owner_kind_of(x) is Homebrew,
        x is Tool <==> owner_kind_of(x) is Tool,
        x is Baseline <==> owner_kind_of(x) is Baseline,
        x is Unattributed <==> owner_kind_of(x) is Unattributed,
{
}

/// What kind an entry is, its record says.
pub proof fn law_entries_are_of_the_same_kind(x: attrib::EntryKind)
    ensures
        x is WorkingTree <==> entry_kind_of(x) is WorkingTree,
        x is Artifacts <==> entry_kind_of(x) is Artifacts,
        x is Worktree <==> entry_kind_of(x) is Worktree,
        x is PackageCache <==> entry_kind_of(x) is PackageCache,
        x is Toolchain <==> entry_kind_of(x) is Toolchain,
        x is Xcode <==> entry_kind_of(x) is Xcode,
        x is Simulator <==> entry_kind_of(x) is Simulator,
        x is Docker <==> entry_kind_of(x) is Docker,
        x is AgentState <==> entry_kind_of(x) is AgentState,
        x is EditorState <==> entry_kind_of(x) is EditorState,
        x is ProjectCache <==> entry_kind_of(x) is ProjectCache,
        x is AppBundle <==> entry_kind_of(x) is AppBundle,
        x is Container <==> entry_kind_of(x) is Container,
        x is GroupContainer <==> entry_kind_of(x) is GroupContainer,
        x is AppSupport <==> entry_kind_of(x) is AppSupport,
        x is Cache <==> entry_kind_of(x) is Cache,
        x is Preferences <==> entry_kind_of(x) is Preferences,
        x is Logs <==> entry_kind_of(x) is Logs,
        x is WebData <==> entry_kind_of(x) is WebData,
        x is SavedState <==> entry_kind_of(x) is SavedState,
        x is DotDir <==> entry_kind_of(x) is DotDir,
        x is Data <==> entry_kind_of(x) is Data,
        x is Other <==> entry_kind_of(x) is Other,
{
}

/// How sure an entry is, its record says.
pub proof fn law_entries_are_as_sure(x: attrib::EvidenceTier)
    ensures
        x is Exact <==> tier_of(x) is Exact,
        x is NameMatch <==> tier_of(x) is NameMatch,
        x is Observed <==> tier_of(x) is Observed,
        x is EcosystemDefault <==> tier_of(x) is EcosystemDefault,
        x is Curated <==> tier_of(x) is Curated,
{
}

/// What is moved to the trash is not removed at once.
pub proof fn law_records_delete_alike(x: scan::DeleteMode)
    ensures
        x is Trash <==> delete_mode_of(x) is Trash,
        x is Rm <==> delete_mode_of(x) is Rm,
{
}

/// What kind a process is, its record says.
pub proof fn law_processes_are_of_the_same_kind(x: attrib::ProcKind)
    ensures
        x is Shell <==> proc_kind_of(x) is Shell,
        x is Server <==> proc_kind_of(x) is Server,
        x is Other <==> proc_kind_of(x) is Other,
{
}

/// The bytes of the records of entries.
pub open spec fn record_bytes(s: Seq<EntryRecord>) -> nat
    decreases s.len(),
{
    if s.len() == 0 {
        0
    } else {
        record_bytes(s.drop_last()) + s.last().bytes as nat
    }
}

/// The bytes of entries.
pub open spec fn bytes_of_entries(s: Seq<EntryView>) -> nat
    decreases s.len(),
{
    if s.len() == 0 {
        0
    } else {
        bytes_of_entries(s.drop_last()) + s.last().bytes as nat
    }
}

/// The records of a list of entries are as many and as large as the entries.
pub proof fn law_records_of_entries_add_up(s: Seq<EntryView>)
    ensures
        entry_record_list(s).len() == s.len(),
        record_bytes(entry_record_list(s)) == bytes_of_entries(s),
    decreases s.len(),
{
    if s.len() > 0 {
        law_records_of_entries_add_up(s.drop_last());
        assert(entry_record_list(s).drop_last() =~= entry_record_list(s.drop_last()));
    }
}

/// The record of an entry says what the entry says.
pub proof fn law_an_entrys_record(x: EntryView)
    ensures
        ({
            let r = entry_record(x);
            &&& r.path == path_text(x.path)
            &&& r.bytes == x.bytes && r.raw_bytes == x.raw_bytes
            &&& r.owners == x.owners
            &&& r.evidence == x.evidence && r.label == x.label && r.reason == x.reason
            &&& r.baseline == x.baseline && r.clone_of_store == x.clone_of_store
            &&& r.virtual_bytes == x.virtual_bytes && r.is_unsized == x.is_unsized
            &&& r.stale == x.stale
            &&& r.finding is Some <==> x.finding is Some
            &&& x.finding is Some ==> r.finding == Some((x.finding->0).0)
        }),
{
}

/// The record of a row says what the row says: each of its sums, its owner, and each of its groups.
pub proof fn law_a_rows_record(x: FootprintView, g: int)
    ensures
        ({
            let r = footprint_record(x);
            &&& r.finding == x.finding.0
            &&& r.exclusive == x.exclusive
            &&& r.shared == x.shared
            &&& r.reach == x.reach
            &&& r.baseline_share == x.baseline_share
            &&& r.clone_note == x.clone_note
            &&& r.owner.key == x.owner.key && r.owner.name == x.owner.name
            &&& r.owner.path is Some <==> x.owner.path is Some
            &&& x.owner.path is Some ==> r.owner.path == Some(path_text(x.owner.path->0))
            &&& r.ports == x.ports
            &&& r.groups.len() == x.groups.len()
            &&& r.worktrees.len() == x.worktrees.len()
            &&& r.processes.len() == x.processes.len()
            &&& 0 <= g < x.groups.len() ==> r.groups[g].bytes == x.groups[g].bytes
                && r.groups[g].entries.len() == x.groups[g].entries.len()
            &&& 0 <= g < x.worktrees.len() ==> r.worktrees[g] == path_text(x.worktrees[g])
            &&& 0 <= g < x.processes.len() ==> r.processes[g].pid == x.processes[g].pid
                && r.processes[g].name == x.processes[g].name && r.processes[g].cwd == path_text(
                x.processes[g].cwd,
            )
        }),
{
}

/// The record of what is left over says how much there is, what was attributed of it, and what was not.
pub proof fn law_the_record_of_the_rest(x: SetView, i: int)
    ensures
        ({
            let r = buckets_record(x);
            &&& r.disk_total == x.disk_total
            &&& r.attributed_total == x.attributed_total
            &&& r.baseline.len() == x.baseline.len()
            &&& r.unattributed.len() == x.unattributed.len()
            &&& 0 <= i < x.baseline.len() ==> r.baseline[i].path == path_text(x.baseline[i].path)
            &&& 0 <= i < x.unattributed.len() ==> r.unattributed[i].path == path_text(
                x.unattributed[i].path,
            )
        }),
{
}

/// The record of a finding says what the finding says.
pub proof fn law_a_findings_record(f: FindingView, i: int)
    ensures
        ({
            let r = finding_record(f);
            &&& r.id == f.id.0
            &&& r.title == f.title && r.detail == f.detail && r.group == f.group
            &&& r.size_bytes == f.size_bytes && r.last_used == f.last_used
            &&& r.path is Some <==> f.path is Some
            &&& f.path is Some ==> r.path == Some(path_text(f.path->0))
            &&& r.remedies.len() == f.remedies.len()
            &&& 0 <= i < f.remedies.len() ==> {
                &&& r.remedies[i].label == f.remedies[i].label
                &&& r.remedies[i].rendered == f.remedies[i].rendered
                &&& r.remedies[i].reclaims_bytes == f.remedies[i].reclaims_bytes
                &&& r.remedies[i].destructive == f.remedies[i].destructive
                &&& r.remedies[i].alternative == f.remedies[i].alternative
                &&& r.remedies[i].has_guard <==> f.remedies[i].guard is Some
            }
        }),
{
}

} // verus!
