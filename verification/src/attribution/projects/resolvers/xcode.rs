//! Xcode: the build output of a project, and what Xcode keeps for all of them.

use vstd::prelude::*;
use vstd::slice::slice_subrange;

use crate::attribution::model::{
    put, put_all, Claim, ClaimView, EntryKind, EnvView, EvidenceTier, ResolveEnv,
    UNATTRIBUTED_OWNER,
};
use crate::attribution::paths::{canonical, node_at, node_in, tree_path};
use crate::attribution::projects::{in_project, under_project, Project, ProjectView};
use crate::disk::{Disk, DiskView, Listed, NodeKind};
use crate::fspath::{child, path_of, path_text, FilePath};
use crate::scan::{DirView, FindingId, FindingKind, FindingView, ScannerId};
use crate::seqs::{first_some, lemma_filter_map_start, lemma_first_some_step};
use crate::text::{cat2, chars_of, ends, find_last, str_ends, string_of};

use super::apply::{excluded, expand, expanded, is_excluded};
use super::common::{own, own_claim, shared, shared_claim};
use super::derive::{plist_text, read_plist_text};
use super::links::without_hash;
use super::rules::{derived_data_caches, global_derived_data_dirs};

verus! {

broadcast use crate::disk::group_asks;

/// Where Xcode puts build output.
pub open spec fn derived_data(home: Seq<Seq<char>>) -> Seq<Seq<char>> {
    child(home, "Library/Developer/Xcode/DerivedData"@)
}

/// Whether a directory is an Xcode project or workspace.
pub open spec fn xcode_dir(name: Seq<char>) -> bool {
    ends(name, ".xcodeproj"@) || ends(name, ".xcworkspace"@)
}

/// Whether one of the directories is an Xcode project or workspace.
pub open spec fn any_xcode_dir(dirs: Seq<DirView>) -> bool {
    exists|i: int| 0 <= i < dirs.len() && xcode_dir((#[trigger] dirs[i]).name)
}

/// Whether a project is one that Xcode builds.
pub open spec fn xcode_project(root: Seq<Seq<char>>, env: EnvView, disk: DiskView) -> bool {
    disk.present(child(root, "Package.swift"@)) || match node_in(env.trees, root) {
        Some(node) => any_xcode_dir(node.children),
        None => false,
    }
}

/// Whether a project is one that Xcode builds: it has a `Package.swift`, or an Xcode project or
/// workspace directly in it.
pub fn is_xcode_project(project: &Project, env: &ResolveEnv, disk: &mut Disk) -> (r: bool)
    requires
        old(disk).wf(),
    ensures
        final(disk).asked(*old(disk)),
        final(disk).holds() ==> r == xcode_project(project@.root, env@, old(disk)@),
{
    if disk.present(&project.root.child("Package.swift")) {
        return true;
    }
    match node_at(&env.trees, &project.root) {
        Some(node) => {
            let ghost all = node@.children;
            let n = node.children.len();
            let mut i: usize = 0;
            while i < n
                invariant
                    i <= n,
                    n == node.children.len(),
                    n == all.len(),
                    all == node@.children,
                    disk.asked(*old(disk)),
                    node_in(env@.trees, project@.root) == Some(node@),
                    forall|j: int| 0 <= j < i ==> !xcode_dir((#[trigger] all[j]).name),
                decreases n - i,
            {
                assert(all[i as int] == node.children@[i as int]@);
                let name = node.children[i].name.as_str();
                if str_ends(name, ".xcodeproj") || str_ends(name, ".xcworkspace") {
                    assert(xcode_dir(all[i as int].name));
                    assert(any_xcode_dir(all));
                    return true;
                }
                i = i + 1;
            }
            false
        },
        None => false,
    }
}

/// The name of a directory with build output, without the hash behind its last dash.
pub fn derived_data_display_name(dir_name: &str) -> (r: String)
    ensures
        r@ == without_hash(dir_name@),
{
    let c = chars_of(dir_name);
    let k = find_last(c.as_slice(), '-');
    if k > 0 {
        let p = slice_subrange(c.as_slice(), 0, k - 1);
        assert(p@ =~= dir_name@.take(k - 1));
        string_of(p)
    } else {
        dir_name.to_owned()
    }
}

/// The project or workspace that a directory holds the build output of.
pub open spec fn workspace_of(disk: DiskView, dir: Seq<Seq<char>>) -> Option<Seq<Seq<char>>> {
    match plist_text(disk, child(dir, "info.plist"@), "WorkspacePath"@) {
        Some(t) => Some(canonical(path_of(t))),
        None => None,
    }
}

fn derived_data_workspace_path(dir_path: &FilePath, disk: &mut Disk) -> (r: Option<FilePath>)
    requires
        old(disk).wf(),
    ensures
        final(disk).asked(*old(disk)),
        final(disk).holds() ==> r.deep_view() == workspace_of(old(disk)@, dir_path@),
{
    match read_plist_text(disk, &dir_path.child("info.plist"), "WorkspacePath") {
        Some(t) => Some(tree_path(&FilePath::from_text(t.as_str()))),
        None => None,
    }
}

/// The finding of a cache directory at a path.
pub open spec fn cache_dir_at(key: Seq<Seq<char>>) -> spec_fn(FindingView) -> Option<FindingId> {
    |f: FindingView|
        if f.kind == FindingKind::CacheDir && f.path is Some && canonical(f.path->0) == key {
            Some(f.id)
        } else {
            None
        }
}

fn matching_fs_cache_dir_finding(env: &ResolveEnv, dir_path: &FilePath) -> (r: Option<FindingId>)
    ensures
        r == first_some(env@.findings(ScannerId::Fs), cache_dir_at(canonical(dir_path@))),
{
    let wanted = tree_path(dir_path);
    let findings = env.findings(ScannerId::Fs);
    let ghost all = findings.deep_view();
    let ghost f = cache_dir_at(wanted@);
    let mut i: usize = 0;
    assert(all.skip(0) =~= all);
    while i < findings.len()
        invariant
            i <= findings.len(),
            all == findings.deep_view(),
            all == env@.findings(ScannerId::Fs),
            wanted@ == canonical(dir_path@),
            f == cache_dir_at(wanted@),
            first_some(all.skip(i as int), f) == first_some(all, f),
        decreases findings.len() - i,
    {
        proof {
            assert(all[i as int] == findings@[i as int]@);
            lemma_first_some_step(all, f, i as int);
        }
        if findings[i].kind == FindingKind::CacheDir {
            if let Some(p) = &findings[i].path {
                if tree_path(p).same(&wanted) {
                    return Some(findings[i].id);
                }
            }
        }
        i = i + 1;
    }
    None
}

/// A claim with a finding, where there is one.
pub open spec fn with_finding(c: ClaimView, id: Option<FindingId>) -> ClaimView {
    match id {
        Some(id) => c.of_finding(id),
        None => c,
    }
}

/// The claim on build output of a project.
pub open spec fn output_claim(p: ProjectView, env: EnvView, disk: DiskView) -> spec_fn(
    (Seq<char>, NodeKind),
) -> Option<ClaimView> {
    |e: (Seq<char>, NodeKind)|
        {
            let dir = child(derived_data(env.home), e.0);
            if e.1 != NodeKind::Dir || excluded(derived_data_caches(), e.0) {
                None
            } else {
                match workspace_of(disk, dir) {
                    Some(ws) => if in_project(p, ws) {
                        Some(
                            with_finding(
                                own(
                                    dir,
                                    path_text(p.root),
                                    EntryKind::Xcode,
                                    EvidenceTier::Exact,
                                    "DerivedData WorkspacePath"@,
                                    "DerivedData "@ + without_hash(e.0),
                                ).tagged("xcode"@),
                                first_some(
                                    env.findings(ScannerId::Fs),
                                    cache_dir_at(canonical(dir)),
                                ),
                            ),
                        )
                    } else {
                        None
                    },
                    None => None,
                }
            }
        }
}

fn make_output_claim(project: &Project, entry: &Listed, env: &ResolveEnv, disk: &mut Disk) -> (r: Option<
    Claim,
>)
    requires
        old(disk).wf(),
    ensures
        final(disk).asked(*old(disk)),
        final(disk).holds()
            ==> r.deep_view() == output_claim(project@, env@, old(disk)@)(entry.deep_view()),
{
    let name = entry.name.as_str();
    if entry.kind != NodeKind::Dir || is_excluded(&global_derived_data_dirs(), name) {
        return None;
    }
    let dir = env.home.child("Library/Developer/Xcode/DerivedData").child(name);
    let ws = match derived_data_workspace_path(&dir, disk) {
        Some(ws) => ws,
        None => {
            return None;
        },
    };
    if !under_project(&ws, project) {
        return None;
    }
    let owner = project.root.text();
    let id = matching_fs_cache_dir_finding(env, &dir);
    let label = cat2("DerivedData ", derived_data_display_name(name).as_str());
    let c = own_claim(
        dir,
        owner.as_str(),
        EntryKind::Xcode,
        EvidenceTier::Exact,
        "DerivedData WorkspacePath",
        label.as_str(),
    ).ecosystem("xcode");
    Some(
        match id {
            Some(id) => c.finding(id),
            None => c,
        },
    )
}

/// The claims of a project on its build output.
pub open spec fn xcode_claims(p: ProjectView, env: EnvView, disk: DiskView) -> Seq<ClaimView> {
    if !xcode_project(p.root, env, disk) {
        seq![]
    } else {
        match disk.list(derived_data(env.home)) {
            Some(entries) => entries.filter_map(output_claim(p, env, disk)),
            None => seq![],
        }
    }
}

/// The claims of a project on its build output, by the workspace that each directory names.
pub fn resolve(project: &Project, env: &ResolveEnv, disk: &mut Disk) -> (r: Vec<Claim>)
    requires
        old(disk).wf(),
    ensures
        final(disk).asked(*old(disk)),
        final(disk).holds() ==> r.deep_view() == xcode_claims(project@, env@, old(disk)@),
{
    let ghost facts = disk@;
    let mut out: Vec<Claim> = Vec::new();
    if !is_xcode_project(project, env, disk) {
        assert(out.deep_view() =~= seq![]);
        return out;
    }
    match disk.list(&env.home.child("Library/Developer/Xcode/DerivedData")) {
        Some(entries) => {
            let ghost all = entries.deep_view();
            let ghost pick = output_claim(project@, env@, facts);
            let mut i: usize = 0;
            proof {
                lemma_filter_map_start(all, pick);
                assert(out.deep_view() =~= all.take(0).filter_map(pick));
            }
            let ghost start = *disk;
            while i < entries.len()
                invariant
                    i <= entries.len(),
                    all == entries.deep_view(),
                    facts == old(disk)@,
                    disk.asked(*old(disk)),
                    disk.holds() ==> start.holds(),
                    pick == output_claim(project@, env@, facts),
                    disk.holds() ==> out.deep_view() == all.take(i as int).filter_map(pick),
                decreases entries.len() - i,
            {
                proof {
                    assert(all[i as int] == entries@[i as int].deep_view());
                    all.lemma_filter_map_take_succ(pick, i as int);
                }
                if let Some(c) = make_output_claim(project, &entries[i], env, disk) {
                    put(&mut out, c);
                }
                assert(disk.holds() ==> out.deep_view() =~= all.take(i + 1).filter_map(pick));
                i = i + 1;
            }
            assert(all.take(i as int) =~= all);
        },
        None => {
            assert(out.deep_view() =~= seq![]);
        },
    }
    out
}

/// The claim on a directory with build output that belongs to no project: a shared cache, or one
/// whose workspace is gone.
pub open spec fn common_output(disk: DiskView, home: Seq<Seq<char>>) -> spec_fn(
    (Seq<char>, NodeKind),
) -> Option<ClaimView> {
    |e: (Seq<char>, NodeKind)|
        {
            let dir = child(derived_data(home), e.0);
            if e.1 != NodeKind::Dir {
                None
            } else if excluded(derived_data_caches(), e.0) {
                Some(shared(dir, EntryKind::Xcode, "Xcode module/SDK cache"@, e.0, "xcode"@))
            } else {
                match workspace_of(disk, dir) {
                    Some(ws) => if disk.present(ws) {
                        None
                    } else {
                        Some(
                            own(
                                dir,
                                UNATTRIBUTED_OWNER@,
                                EntryKind::Xcode,
                                EvidenceTier::Observed,
                                "workspace deleted: "@ + path_text(ws),
                                "DerivedData "@ + without_hash(e.0),
                            ).gone(),
                        )
                    },
                    None => None,
                }
            }
        }
}

fn make_common_output(entry: &Listed, env: &ResolveEnv, disk: &mut Disk) -> (r: Option<Claim>)
    requires
        old(disk).wf(),
    ensures
        final(disk).asked(*old(disk)),
        final(disk).holds()
            ==> r.deep_view() == common_output(old(disk)@, env@.home)(entry.deep_view()),
{
    let name = entry.name.as_str();
    if entry.kind != NodeKind::Dir {
        return None;
    }
    let dir = env.home.child("Library/Developer/Xcode/DerivedData").child(name);
    if is_excluded(&global_derived_data_dirs(), name) {
        return Some(shared_claim(dir, EntryKind::Xcode, "Xcode module/SDK cache", name, "xcode"));
    }
    let ws = match derived_data_workspace_path(&dir, disk) {
        Some(ws) => ws,
        None => {
            return None;
        },
    };
    if disk.present(&ws) {
        return None;
    }
    Some(
        own_claim(
            dir,
            UNATTRIBUTED_OWNER,
            EntryKind::Xcode,
            EvidenceTier::Observed,
            cat2("workspace deleted: ", ws.text().as_str()).as_str(),
            cat2("DerivedData ", derived_data_display_name(name).as_str()).as_str(),
        ).stale(),
    )
}

/// The claims on build output that belongs to no project.
pub open spec fn common_outputs(disk: DiskView, home: Seq<Seq<char>>) -> Seq<ClaimView> {
    match disk.list(derived_data(home)) {
        Some(entries) => entries.filter_map(common_output(disk, home)),
        None => seq![],
    }
}

fn make_common_outputs(env: &ResolveEnv, disk: &mut Disk) -> (r: Vec<Claim>)
    requires
        old(disk).wf(),
    ensures
        final(disk).asked(*old(disk)),
        final(disk).holds() ==> r.deep_view() == common_outputs(old(disk)@, env@.home),
{
    let ghost facts = disk@;
    let mut out: Vec<Claim> = Vec::new();
    match disk.list(&env.home.child("Library/Developer/Xcode/DerivedData")) {
        Some(entries) => {
            let ghost all = entries.deep_view();
            let ghost pick = common_output(facts, env@.home);
            let mut i: usize = 0;
            proof {
                lemma_filter_map_start(all, pick);
                assert(out.deep_view() =~= all.take(0).filter_map(pick));
            }
            let ghost start = *disk;
            while i < entries.len()
                invariant
                    i <= entries.len(),
                    all == entries.deep_view(),
                    facts == old(disk)@,
                    disk.asked(*old(disk)),
                    disk.holds() ==> start.holds(),
                    pick == common_output(facts, env@.home),
                    disk.holds() ==> out.deep_view() == all.take(i as int).filter_map(pick),
                decreases entries.len() - i,
            {
                proof {
                    assert(all[i as int] == entries@[i as int].deep_view());
                    all.lemma_filter_map_take_succ(pick, i as int);
                }
                if let Some(c) = make_common_output(&entries[i], env, disk) {
                    put(&mut out, c);
                }
                assert(disk.holds() ==> out.deep_view() =~= all.take(i + 1).filter_map(pick));
                i = i + 1;
            }
            assert(all.take(i as int) =~= all);
        },
        None => {
            assert(out.deep_view() =~= seq![]);
        },
    }
    out
}

/// The claim on a fixed place.
pub open spec fn fixed_claim(
    home: Seq<Seq<char>>,
    place: Seq<char>,
    label: Seq<char>,
    kind: EntryKind,
) -> ClaimView {
    shared(expanded(home, place), kind, "ecosystem default"@, label, "xcode"@)
}

/// The claims on the fixed places of Xcode and of the simulators.
pub open spec fn fixed_claims(home: Seq<Seq<char>>) -> Seq<ClaimView> {
    seq![
        fixed_claim(
            home,
            "~/Library/Developer/Xcode/UserData"@,
            "Xcode UserData"@,
            EntryKind::Xcode,
        ),
        fixed_claim(
            home,
            "~/Library/Developer/CoreSimulator/Caches"@,
            "Simulator caches"@,
            EntryKind::Simulator,
        ),
        fixed_claim(
            home,
            "~/Library/Developer/XCPGDevices"@,
            "XCPG devices"@,
            EntryKind::Simulator,
        ),
        fixed_claim(
            home,
            "~/Library/Developer/CoreSimulator/Images"@,
            "Simulator images"@,
            EntryKind::Simulator,
        ),
        fixed_claim(
            home,
            "/Library/Developer/CoreSimulator/Volumes"@,
            "Simulator runtimes"@,
            EntryKind::Simulator,
        ),
    ]
}

fn make_fixed(home: &FilePath, place: &str, label: &str, kind: EntryKind) -> (r: Claim)
    ensures
        r@ == fixed_claim(home@, place@, label@, kind),
{
    shared_claim(expand(home, place), kind, "ecosystem default", label, "xcode")
}

fn make_fixed_claims(home: &FilePath) -> (r: Vec<Claim>)
    ensures
        r.deep_view() == fixed_claims(home@),
{
    let xcode = EntryKind::Xcode;
    let simulator = EntryKind::Simulator;
    let mut out: Vec<Claim> = Vec::new();
    put(&mut out, make_fixed(home, "~/Library/Developer/Xcode/UserData", "Xcode UserData", xcode));
    put(
        &mut out,
        make_fixed(
            home,
            "~/Library/Developer/CoreSimulator/Caches",
            "Simulator caches",
            simulator,
        ),
    );
    put(
        &mut out,
        make_fixed(home, "~/Library/Developer/XCPGDevices", "XCPG devices", simulator),
    );
    put(
        &mut out,
        make_fixed(
            home,
            "~/Library/Developer/CoreSimulator/Images",
            "Simulator images",
            simulator,
        ),
    );
    put(
        &mut out,
        make_fixed(
            home,
            "/Library/Developer/CoreSimulator/Volumes",
            "Simulator runtimes",
            simulator,
        ),
    );
    assert(out.deep_view() =~= fixed_claims(home@));
    out
}

/// The claim on a directory with what Xcode keeps of attached devices.
pub open spec fn support_claim(dir: Seq<Seq<char>>) -> spec_fn((Seq<char>, NodeKind)) -> Option<
    ClaimView,
> {
    |e: (Seq<char>, NodeKind)|
        if e.1 == NodeKind::Dir && ends(e.0, "DeviceSupport"@) {
            Some(
                shared(
                    child(dir, e.0),
                    EntryKind::Xcode,
                    "Xcode device support"@,
                    e.0,
                    "xcode"@,
                ),
            )
        } else {
            None
        }
}

/// The claims on the directories with what Xcode keeps of attached devices.
pub open spec fn support_claims(disk: DiskView, dir: Seq<Seq<char>>) -> Seq<ClaimView> {
    match disk.list(dir) {
        Some(entries) => entries.filter_map(support_claim(dir)),
        None => seq![],
    }
}

fn make_support_claims(dir: &FilePath, disk: &mut Disk) -> (r: Vec<Claim>)
    requires
        old(disk).wf(),
    ensures
        final(disk).asked(*old(disk)),
        final(disk).holds() ==> r.deep_view() == support_claims(old(disk)@, dir@),
{
    let mut out: Vec<Claim> = Vec::new();
    match disk.list(dir) {
        Some(entries) => {
            let ghost all = entries.deep_view();
            let ghost pick = support_claim(dir@);
            let mut i: usize = 0;
            proof {
                lemma_filter_map_start(all, pick);
                assert(out.deep_view() =~= all.take(0).filter_map(pick));
            }
            while i < entries.len()
                invariant
                    i <= entries.len(),
                    all == entries.deep_view(),
                    pick == support_claim(dir@),
                    disk.holds() ==> out.deep_view() == all.take(i as int).filter_map(pick),
                decreases entries.len() - i,
            {
                proof {
                    assert(all[i as int] == entries@[i as int].deep_view());
                    all.lemma_filter_map_take_succ(pick, i as int);
                }
                let name = entries[i].name.as_str();
                if entries[i].kind == NodeKind::Dir && str_ends(name, "DeviceSupport") {
                    put(
                        &mut out,
                        shared_claim(
                            dir.child(name),
                            EntryKind::Xcode,
                            "Xcode device support",
                            name,
                            "xcode",
                        ),
                    );
                }
                assert(disk.holds() ==> out.deep_view() =~= all.take(i + 1).filter_map(pick));
                i = i + 1;
            }
            assert(all.take(i as int) =~= all);
        },
        None => {
            assert(out.deep_view() =~= seq![]);
        },
    }
    out
}

/// The claims on what Xcode keeps for all projects.
pub open spec fn xcode_common(env: EnvView, disk: DiskView) -> Seq<ClaimView> {
    common_outputs(disk, env.home) + fixed_claims(env.home) + support_claims(
        disk,
        child(env.home, "Library/Developer/Xcode"@),
    )
}

/// The claims on what Xcode keeps for all projects: shared caches and build output whose workspace
/// is gone, the fixed places, and what is kept of attached devices.
pub fn baseline(env: &ResolveEnv, disk: &mut Disk) -> (r: Vec<Claim>)
    requires
        old(disk).wf(),
    ensures
        final(disk).asked(*old(disk)),
        final(disk).holds() ==> r.deep_view() == xcode_common(env@, old(disk)@),
{
    let mut out = make_common_outputs(env, disk);
    put_all(&mut out, make_fixed_claims(&env.home));
    put_all(&mut out, make_support_claims(&env.home.child("Library/Developer/Xcode"), disk));
    out
}

} // verus!
