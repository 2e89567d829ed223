//! Simulators: the apps of a project that are installed in them, and the simulators themselves.

use vstd::prelude::*;

use crate::attribution::model::{
    put, Claim, ClaimView, EntryKind, EnvView, EvidenceTier, ResolveEnv,
};
use crate::attribution::projects::{Project, ProjectView};
use crate::disk::{Disk, DiskView};
use crate::fspath::{child, path_text, FilePath};
use crate::seqs::{first_some, flat, lemma_filter_map_start, lemma_flat_start, lemma_flat_step};
use crate::text::{cat2, cat3, same};

use super::common::{own, own_claim, shared, shared_claim};
use super::derive::{
    app_entry_id, app_id, device_label, end_name, end_of, list_dirs, plist_text, read_plist_text,
    simulator_device_label,
};
use super::links::{bundle_id_of, matches_bundle_id};
use super::templates::entry_paths;

verus! {

broadcast use crate::disk::group_asks;

/// Where the simulators lie.
pub open spec fn devices_in(home: Seq<Seq<char>>) -> Seq<Seq<char>> {
    child(home, "Library/Developer/CoreSimulator/Devices"@)
}

/// What a simulator is called, without its runtime.
pub open spec fn device_name(disk: DiskView, dir: Seq<Seq<char>>) -> Seq<char> {
    match plist_text(disk, child(dir, "device.plist"@), "name"@) {
        Some(n) => n,
        None => end_name(dir),
    }
}

fn device_display_name(dir: &FilePath, disk: &mut Disk) -> (r: String)
    requires
        old(disk).wf(),
    ensures
        final(disk).asked(*old(disk)),
        final(disk).holds() ==> r@ == device_name(old(disk)@, dir@),
{
    match read_plist_text(disk, &dir.child("device.plist"), "name") {
        Some(n) => n,
        None => end_of(dir),
    }
}

/// The bundle id that a container belongs to: the one in its metadata, or in a container of programs
/// else that of the first app in it that has one.
pub open spec fn id_of_container(disk: DiskView, dir: Seq<Seq<char>>, programs: bool) -> Option<
    Seq<char>,
> {
    let meta = plist_text(
        disk,
        child(dir, ".com.apple.mobile_container_manager.metadata.plist"@),
        "MCMMetadataIdentifier"@,
    );
    if meta is Some {
        meta
    } else if !programs {
        None
    } else {
        match disk.list(dir) {
            Some(entries) => first_some(entries, app_entry_id(disk, dir)),
            None => None,
        }
    }
}

/// The bundle id that a container belongs to.
pub fn container_bundle_id(container_dir: &FilePath, kind: &str, disk: &mut Disk) -> (r: Option<String>)
    requires
        old(disk).wf(),
    ensures
        final(disk).asked(*old(disk)),
        final(disk).holds()
            ==> r.deep_view() == id_of_container(old(disk)@, container_dir@, kind@ == "Bundle"@),
{
    let meta = read_plist_text(
        disk,
        &container_dir.child(".com.apple.mobile_container_manager.metadata.plist"),
        "MCMMetadataIdentifier",
    );
    if meta.is_some() {
        return meta;
    }
    if !same(kind, "Bundle") {
        return None;
    }
    app_id(disk, container_dir)
}

/// The claim on a container of an app of the project.
pub open spec fn container_claim(
    p: ProjectView,
    disk: DiskView,
    device: Seq<char>,
    programs: bool,
) -> spec_fn(Seq<Seq<char>>) -> Option<ClaimView> {
    |dir: Seq<Seq<char>>|
        match id_of_container(disk, dir, programs) {
            Some(id) => if bundle_id_of(p.bundle_ids, id) {
                Some(
                    own(
                        dir,
                        path_text(p.root),
                        EntryKind::Simulator,
                        EvidenceTier::Exact,
                        "installed in simulator "@ + device,
                        id + " on "@ + device,
                    ).tagged("xcode"@),
                )
            } else {
                None
            },
            None => None,
        }
}

/// The claims on the containers of one kind in a simulator.
pub open spec fn containers_claims(
    p: ProjectView,
    disk: DiskView,
    dir: Seq<Seq<char>>,
    kind: Seq<char>,
) -> Seq<ClaimView> {
    entry_paths(
        disk,
        child(child(child(dir, "data/Containers"@), kind), "Application"@),
        true,
    ).filter_map(container_claim(p, disk, device_name(disk, dir), kind == "Bundle"@))
}

/// The claims on the containers in a simulator.
pub open spec fn device_claims(p: ProjectView, disk: DiskView) -> spec_fn(Seq<Seq<char>>) -> Seq<
    ClaimView,
> {
    |dir: Seq<Seq<char>>|
        containers_claims(p, disk, dir, "Bundle"@) + containers_claims(p, disk, dir, "Data"@)
}

fn make_container_claim(project: &Project, dir: &FilePath, device: &str, kind: &str, disk: &mut Disk) -> (r: Option<
    Claim,
>)
    requires
        old(disk).wf(),
    ensures
        final(disk).asked(*old(disk)),
        final(disk).holds()
            ==> r.deep_view() == container_claim(project@, old(disk)@, device@, kind@ == "Bundle"@)(dir@),
{
    let id = match container_bundle_id(dir, kind, disk) {
        Some(id) => id,
        None => {
            return None;
        },
    };
    if !matches_bundle_id(&project.bundle_ids, id.as_str()) {
        return None;
    }
    let owner = project.root.text();
    Some(
        own_claim(
            dir.copy(),
            owner.as_str(),
            EntryKind::Simulator,
            EvidenceTier::Exact,
            cat2("installed in simulator ", device).as_str(),
            cat3(id.as_str(), " on ", device).as_str(),
        ).ecosystem("xcode"),
    )
}

fn put_containers(
    project: &Project,
    dir: &FilePath,
    device: &str,
    kind: &str,
    disk: &mut Disk,
    out: &mut Vec<Claim>,
)
    requires
        old(disk).wf(),
        old(disk).holds() ==> device@ == device_name(old(disk)@, dir@),
    ensures
        final(disk).asked(*old(disk)),
        final(disk).holds() ==> final(out).deep_view() == old(out).deep_view() + containers_claims(
            project@,
            old(disk)@,
            dir@,
            kind@,
        ),
{
    let ghost facts = disk@;
    let ghost was = out.deep_view();
    let apps = dir.child("data/Containers").child(kind).child("Application");
    let dirs = list_dirs(disk, &apps);
    let ghost all = dirs.deep_view();
    let ghost pick = container_claim(project@, facts, device@, kind@ == "Bundle"@);
    let mut i: usize = 0;
    proof {
        lemma_filter_map_start(all, pick);
        assert(out.deep_view() =~= was + all.take(0).filter_map(pick));
    }
    let ghost start = *disk;
    while i < dirs.len()
        invariant
            i <= dirs.len(),
            all == dirs.deep_view(),
            facts == old(disk)@,
            disk.asked(*old(disk)),
            disk.holds() ==> start.holds(),
            pick == container_claim(project@, facts, device@, kind@ == "Bundle"@),
            disk.holds() ==> out.deep_view() == was + all.take(i as int).filter_map(pick),
        decreases dirs.len() - i,
    {
        proof {
            assert(all[i as int] == dirs@[i as int]@);
            all.lemma_filter_map_take_succ(pick, i as int);
        }
        if let Some(c) = make_container_claim(project, &dirs[i], device, kind, disk) {
            put(out, c);
        }
        assert(disk.holds() ==> out.deep_view() =~= was + all.take(i + 1).filter_map(pick));
        i = i + 1;
    }
    assert(all.take(i as int) =~= all);
}

/// The claims of a project on its apps in simulators.
pub open spec fn simulator_claims(p: ProjectView, env: EnvView, disk: DiskView) -> Seq<ClaimView> {
    if p.bundle_ids.len() == 0 {
        seq![]
    } else {
        flat(entry_paths(disk, devices_in(env.home), true), device_claims(p, disk))
    }
}

/// The claims of a project on the containers of its apps in simulators.
pub fn resolve(project: &Project, env: &ResolveEnv, disk: &mut Disk) -> (r: Vec<Claim>)
    requires
        old(disk).wf(),
    ensures
        final(disk).asked(*old(disk)),
        final(disk).holds() ==> r.deep_view() == simulator_claims(project@, env@, old(disk)@),
{
    let ghost facts = disk@;
    let mut out: Vec<Claim> = Vec::new();
    assert(project@.bundle_ids.len() == project.bundle_ids.len());
    if project.bundle_ids.len() == 0 {
        assert(out.deep_view() =~= seq![]);
        return out;
    }
    let devices = list_dirs(disk, &env.home.child("Library/Developer/CoreSimulator/Devices"));
    let ghost all = devices.deep_view();
    let ghost f = device_claims(project@, facts);
    let mut i: usize = 0;
    proof {
        lemma_flat_start(all, f);
        assert(out.deep_view() =~= flat(all.take(0), f));
    }
    let ghost start = *disk;
    while i < devices.len()
        invariant
            i <= devices.len(),
            all == devices.deep_view(),
            facts == old(disk)@,
            disk.asked(*old(disk)),
            disk.holds() ==> start.holds(),
            f == device_claims(project@, facts),
            disk.holds() ==> out.deep_view() == flat(all.take(i as int), f),
        decreases devices.len() - i,
    {
        proof {
            assert(all[i as int] == devices@[i as int]@);
            lemma_flat_step(all, f, i as int);
        }
        let ghost was = out.deep_view();
        let name = device_display_name(&devices[i], disk);
        put_containers(project, &devices[i], name.as_str(), "Bundle", disk, &mut out);
        put_containers(project, &devices[i], name.as_str(), "Data", disk, &mut out);
        assert(disk.holds() ==> out.deep_view() =~= was + f(all[i as int]));
        i = i + 1;
    }
    assert(all.take(i as int) =~= all);
    out
}

/// The claim on a simulator.
pub open spec fn whole_device_claim(disk: DiskView, dir: Seq<Seq<char>>) -> ClaimView {
    shared(
        dir,
        EntryKind::Simulator,
        "simulator device"@,
        device_label(disk, dir),
        "xcode"@,
    )
}

/// The claims on all simulators.
pub open spec fn all_device_claims(env: EnvView, disk: DiskView) -> Seq<ClaimView> {
    let dirs = entry_paths(disk, devices_in(env.home), true);
    Seq::new(dirs.len(), |i: int| whole_device_claim(disk, dirs[i]))
}

/// The claims on all simulators, each once.
pub fn baseline(env: &ResolveEnv, disk: &mut Disk) -> (r: Vec<Claim>)
    requires
        old(disk).wf(),
    ensures
        final(disk).asked(*old(disk)),
        final(disk).holds() ==> r.deep_view() == all_device_claims(env@, old(disk)@),
{
    let ghost facts = disk@;
    let ghost want = all_device_claims(env@, facts);
    let dirs = list_dirs(disk, &env.home.child("Library/Developer/CoreSimulator/Devices"));
    let ghost all = dirs.deep_view();
    let mut out: Vec<Claim> = Vec::new();
    let mut i: usize = 0;
    assert(all.len() == dirs.len());
    while i < dirs.len()
        invariant
            i <= dirs.len(),
            all == dirs.deep_view(),
            facts == old(disk)@,
            disk.asked(*old(disk)),
            disk.holds() ==> want.len() == dirs.len(),
            disk.holds()
                ==> want == Seq::new(all.len(), |i: int| whole_device_claim(facts, all[i])),
            disk.holds() ==> out.deep_view() =~= want.take(i as int),
        decreases dirs.len() - i,
    {
        assert(all[i as int] == dirs@[i as int]@);
        let label = simulator_device_label(&dirs[i], disk);
        put(
            &mut out,
            shared_claim(
                dirs[i].copy(),
                EntryKind::Simulator,
                "simulator device",
                label.as_str(),
                "xcode",
            ),
        );
        i = i + 1;
    }
    assert(disk.holds() ==> want.take(i as int) =~= want);
    out
}

} // verus!
