//! Docker: the objects of a project, by its root alone, and Docker's own disk.

use vstd::prelude::*;

use crate::attribution::model::{put, Claim, ClaimView, EntryKind, EnvView, ResolveEnv};
use crate::attribution::projects::{Project, ProjectView};
use crate::disk::{Disk, DiskView};
use crate::fspath::{child, copy_strings, FilePath};

use super::common::{shared, shared_claim};
use super::joins::{docker, docker_claims, docker_unlinked, unlinked_claims};

verus! {

broadcast use crate::disk::group_asks;

/// A project without its other checkouts.
pub open spec fn root_only(p: ProjectView) -> ProjectView {
    ProjectView { worktrees: seq![], ..p }
}

/// The claims of a project on the containers whose Compose directory lies in its root, on the images
/// that they use, and on the volumes of their Compose projects. Its other checkouts do not count.
pub fn resolve(project: &Project, env: &ResolveEnv, disk: &mut Disk) -> (r: Vec<Claim>)
    requires
        old(disk).wf(),
    ensures
        final(disk).asked(*old(disk)),
        final(disk).holds()
            ==> r.deep_view() == docker_claims(root_only(project@), env@, old(disk)@),
{
    let worktrees: Vec<FilePath> = Vec::new();
    let alone = Project {
        root: project.root.copy(),
        name: project.name.clone(),
        worktrees,
        names: copy_strings(&project.names),
        bundle_ids: copy_strings(&project.bundle_ids),
        is_git: project.is_git,
    };
    assert(alone@ =~= root_only(project@));
    docker(&alone, env, disk)
}

/// The claim on Docker's own disk, where there is one.
pub open spec fn own_disk(env: EnvView, disk: DiskView) -> Seq<ClaimView> {
    let root = child(env.home, "Library/Containers/com.docker.docker"@);
    if disk.present(root) {
        seq![
            shared(
                root,
                EntryKind::Docker,
                "Docker Desktop VM disk"@,
                "Docker Desktop VM disk (allocated)"@,
                "docker"@,
            ),
        ]
    } else {
        seq![]
    }
}

/// The claims of nobody on the objects that no Compose project links, and the claim on Docker's own
/// disk.
pub fn baseline(env: &ResolveEnv, disk: &mut Disk) -> (r: Vec<Claim>)
    requires
        old(disk).wf(),
    ensures
        final(disk).asked(*old(disk)),
        final(disk).holds() ==> r.deep_view() == unlinked_claims(env@) + own_disk(env@, old(disk)@),
{
    let mut out = docker_unlinked(env);
    let ghost was = out.deep_view();
    let root = env.home.child("Library/Containers/com.docker.docker");
    if disk.present(&root) {
        put(
            &mut out,
            shared_claim(
                root,
                EntryKind::Docker,
                "Docker Desktop VM disk",
                "Docker Desktop VM disk (allocated)",
                "docker",
            ),
        );
    }
    assert(disk.holds() ==> out.deep_view() =~= was + own_disk(env@, old(disk)@));
    out
}

} // verus!
