//! What holds of the claims that a project makes on what the sections have found.

use vstd::prelude::*;

use crate::attribution::model::{ClaimView, EntryKind, EnvView, EvidenceTier};
use crate::attribution::paths::canonical;
use crate::attribution::projects::{in_project, ProjectView};
use crate::disk::DiskView;
use crate::doc::{field, list_of, text_field, text_of, unsigned_field, DocView};
use crate::fspath::{path_of, path_text, under};
use crate::scan::{FindingKind, FindingView, ScannerId};
use crate::seqs::{lemma_picked, lemma_picked_from};

use super::artifacts::redirected_claims;
use super::joins::{
    artifact_claim, artifact_claims, checkout_claim, compose_names, container_claim, container_ids,
    directory_claims, docker_claims, image_claims, image_ids, loose_container, loose_image,
    loose_volume, object_path, runs_in, unlinked_claims, used_by_any, used_image, uses_docker,
    volume_claim,
};
use super::project_claims;

verus! {

/// Whether a path lies in the root of a project or in one of its other checkouts.
pub open spec fn lies_in(p: ProjectView, at: Seq<Seq<char>>) -> bool {
    p.root.is_prefix_of(at) || exists|i: int|
        0 <= i < p.worktrees.len() && (#[trigger] p.worktrees[i]).is_prefix_of(at)
}

proof fn lemma_under_is_prefix(a: Seq<Seq<char>>, base: Seq<Seq<char>>)
    ensures
        under(a, base) <==> base.is_prefix_of(a),
{
    if base.is_prefix_of(a) {
        assert(a.take(base.len() as int) =~= base);
    }
    if under(a, base) {
        assert(a.subrange(0, base.len() as int) =~= a.take(base.len() as int));
    }
}

proof fn lemma_lies_in(p: ProjectView, at: Seq<Seq<char>>)
    ensures
        lies_in(p, at) <==> in_project(p, at),
{
    lemma_under_is_prefix(at, p.root);
    if lies_in(p, at) && !p.root.is_prefix_of(at) {
        let i = choose|i: int|
            0 <= i < p.worktrees.len() && (#[trigger] p.worktrees[i]).is_prefix_of(at);
        lemma_under_is_prefix(at, p.worktrees[i]);
    }
    if in_project(p, at) && !under(at, p.root) {
        let i = choose|i: int| 0 <= i < p.worktrees.len() && under(at, #[trigger] p.worktrees[i]);
        lemma_under_is_prefix(at, p.worktrees[i]);
    }
}

/// Whether a claim bears none of the marks that keep its bytes from its owner.
pub open spec fn unmarked(c: ClaimView) -> bool {
    !c.baseline && !c.clone_of_store && !c.virtual_bytes && !c.stale
}

/// The size that a finding's claim has: with the bytes that are linked from elsewhere too it is the
/// finding's size, and nothing where those are more; unknown where the finding's is.
pub open spec fn sized_as(c: ClaimView, size: Option<u64>, linked: Option<u64>) -> bool {
    match size {
        None => c.raw_bytes_override is None,
        Some(n) => c.raw_bytes_override is Some && (match linked {
            None => c.raw_bytes_override->0 == n,
            Some(l) => if l <= n {
                c.raw_bytes_override->0 + l == n
            } else {
                c.raw_bytes_override->0 == 0
            },
        }),
    }
}

/// Build output that was found in a project is claimed by it, and what is claimed of it, together with
/// what is linked from elsewhere too, is the size that was found.
pub proof fn law_build_output_is_claimed_with_its_size(
    p: ProjectView,
    env: EnvView,
    disk: DiskView,
    i: int,
)
    requires
        0 <= i < env.findings(ScannerId::Fs).len(),
        env.findings(ScannerId::Fs)[i].kind == FindingKind::BuildArtifact,
        env.findings(ScannerId::Fs)[i].path is Some,
        lies_in(p, env.findings(ScannerId::Fs)[i].path->0),
    ensures
        ({
            let f = env.findings(ScannerId::Fs)[i];
            let r = artifact_claims(p, env, disk);
            exists|j: int|
                0 <= j < r.len() && (#[trigger] r[j]).path == f.path->0 && r[j].owner == path_text(
                    p.root,
                ) && r[j].kind == EntryKind::Artifacts && r[j].tier == EvidenceTier::Exact
                    && r[j].finding == Some(f.id) && r[j].ecosystem is None && unmarked(r[j])
                    && sized_as(r[j], f.size_bytes, unsigned_field(f.meta, "shared_hardlink_bytes"@))
        }),
{
    let fs = env.findings(ScannerId::Fs);
    let f = fs[i];
    lemma_lies_in(p, f.path->0);
    let k = lemma_picked(fs, artifact_claim(p), i);
    let r = artifact_claims(p, env, disk);
    let j = 1 + p.worktrees.len() + k;
    assert(r[j] == fs.filter_map(artifact_claim(p))[k]);
}

/// A project claims its root, each of its other checkouts, and besides only build output that was
/// found in it, all for itself and by sure evidence.
pub proof fn law_directories_of_a_project(p: ProjectView, env: EnvView)
    ensures
        ({
            let r = directory_claims(p, env);
            let fs = env.findings(ScannerId::Fs);
            &&& r.len() > p.worktrees.len()
            &&& r[0].path == p.root && r[0].kind == EntryKind::WorkingTree && r[0].label == p.name
            &&& r[0].evidence == (if p.is_git {
                "git repository"@
            } else {
                "project manifest"@
            })
            &&& forall|i: int|
                0 <= i < p.worktrees.len() ==> (#[trigger] r[i + 1]).path == p.worktrees[i]
                    && r[i + 1].kind == EntryKind::Worktree
            &&& forall|j: int|
                0 <= j < r.len() ==> (#[trigger] r[j]).owner == path_text(p.root) && r[j].tier
                    == EvidenceTier::Exact && unmarked(r[j]) && r[j].ecosystem is None
            &&& forall|j: int|
                0 <= j <= p.worktrees.len() ==> (#[trigger] r[j]).raw_bytes_override is None
                    && r[j].finding is None
            &&& forall|j: int|
                p.worktrees.len() < j < r.len() ==> exists|i: int|
                    0 <= i < fs.len() && (#[trigger] fs[i]).kind == FindingKind::BuildArtifact
                        && fs[i].path == Some((#[trigger] r[j]).path) && lies_in(p, r[j].path)
                        && r[j].finding == Some(fs[i].id) && r[j].kind == EntryKind::Artifacts
                        && sized_as(
                        r[j],
                        fs[i].size_bytes,
                        unsigned_field(fs[i].meta, "shared_hardlink_bytes"@),
                    )
        }),
{
    let r = directory_claims(p, env);
    let fs = env.findings(ScannerId::Fs);
    let got = fs.filter_map(artifact_claim(p));
    assert forall|i: int| 0 <= i < p.worktrees.len() implies (#[trigger] r[i + 1]).path
        == p.worktrees[i] && r[i + 1].kind == EntryKind::Worktree by {
        assert(r[i + 1] == checkout_claim(p, p.worktrees[i]));
    }
    assert forall|j: int| p.worktrees.len() < j < r.len() implies exists|i: int|
        0 <= i < fs.len() && (#[trigger] fs[i]).kind == FindingKind::BuildArtifact && fs[i].path
            == Some((#[trigger] r[j]).path) && lies_in(p, r[j].path) && r[j].finding == Some(
            fs[i].id,
        ) && r[j].kind == EntryKind::Artifacts && sized_as(
            r[j],
            fs[i].size_bytes,
            unsigned_field(fs[i].meta, "shared_hardlink_bytes"@),
        ) by {
        let k = j - 1 - p.worktrees.len();
        assert(r[j] == got[k]);
        let i = lemma_picked_from(fs, artifact_claim(p), k);
        lemma_lies_in(p, r[j].path);
        assert(fs[i].kind == FindingKind::BuildArtifact);
    }
    assert forall|j: int| 0 <= j < r.len() implies (#[trigger] r[j]).owner == path_text(p.root)
        && r[j].tier == EvidenceTier::Exact && unmarked(r[j]) && r[j].ecosystem is None by {
        if j == 0 {
        } else if j <= p.worktrees.len() {
            assert(r[j] == checkout_claim(p, p.worktrees[j - 1]));
        } else {
            let k = j - 1 - p.worktrees.len();
            assert(r[j] == got[k]);
            let i = lemma_picked_from(fs, artifact_claim(p), k);
        }
    }
    assert forall|j: int| 0 <= j <= p.worktrees.len() implies (
    #[trigger] r[j]).raw_bytes_override is None && r[j].finding is None by {
        if j > 0 {
            assert(r[j] == checkout_claim(p, p.worktrees[j - 1]));
        }
    }
}

/// All that a project claims: its directories, its redirected target directories and its Docker
/// objects are among it.
pub proof fn law_claims_of_a_project_hold_each_kind(p: ProjectView, env: EnvView, disk: DiskView)
    ensures
        forall|i: int|
            0 <= i < directory_claims(p, env).len() ==> project_claims(p, env, disk).contains(
                #[trigger] directory_claims(p, env)[i],
            ),
        forall|i: int|
            0 <= i < redirected_claims(p, env, disk).len() ==> project_claims(
                p,
                env,
                disk,
            ).contains(#[trigger] redirected_claims(p, env, disk)[i]),
        forall|i: int|
            0 <= i < docker_claims(p, env, disk).len() ==> project_claims(p, env, disk).contains(
                #[trigger] docker_claims(p, env, disk)[i],
            ),
{
    let all = project_claims(p, env, disk);
    let a = directory_claims(p, env);
    let b = redirected_claims(p, env, disk);
    let d = docker_claims(p, env, disk);
    assert forall|i: int| 0 <= i < a.len() implies all.contains(#[trigger] a[i]) by {
        assert(all[i] == a[i]);
    }
    assert forall|i: int| 0 <= i < b.len() implies all.contains(#[trigger] b[i]) by {
        assert(all[a.len() + i] == b[i]);
    }
    assert forall|i: int| 0 <= i < d.len() implies all.contains(#[trigger] d[i]) by {
        assert(all[all.len() - d.len() + i] == d[i]);
    }
}

/// Whether a finding is a Docker object of a sort, under an id.
pub open spec fn object_is(f: FindingView, sort: Seq<char>, id: Seq<char>) -> bool {
    text_field(f.meta, "object"@) == Some(sort) && text_field(
        f.meta,
        if sort == "volume"@ {
            "name"@
        } else {
            "id"@
        },
    ) == Some(id)
}

/// Whether a finding is a container that Compose runs in a directory of the project.
pub open spec fn container_of(p: ProjectView, f: FindingView, id: Seq<char>) -> bool {
    object_is(f, "container"@, id) && text_field(f.meta, "compose_working_dir"@) is Some && lies_in(
        p,
        canonical(path_of(text_field(f.meta, "compose_working_dir"@)->0)),
    )
}

/// Whether a claim is on a Docker object of a directory, with its bytes, which take no room of their
/// own.
pub open spec fn on_object(
    c: ClaimView,
    home: Seq<Seq<char>>,
    dir: Seq<char>,
    id: Seq<char>,
    owner: Seq<char>,
    bytes: Option<u64>,
) -> bool {
    &&& c.path == object_path(home, dir, id)
    &&& c.owner == owner
    &&& c.kind == EntryKind::Docker
    &&& c.virtual_bytes
    &&& !c.baseline && !c.clone_of_store && !c.stale
    &&& c.raw_bytes_override is Some
    &&& bytes is Some ==> c.raw_bytes_override == bytes
    &&& bytes is None ==> c.raw_bytes_override == Some(0u64)
}

proof fn lemma_strings_of_docker()
    ensures
        "container"@ != "volume"@,
        "image"@ != "volume"@,
        "container"@ != "image"@,
{
    reveal_strlit("container");
    reveal_strlit("volume");
    reveal_strlit("image");
    assert("container"@.len() != "volume"@.len());
    assert("image"@.len() != "volume"@.len());
}

/// A container that Compose runs in a directory of the project is claimed by the project.
pub proof fn law_containers_of_a_project_are_claimed(
    p: ProjectView,
    env: EnvView,
    disk: DiskView,
    i: int,
    id: Seq<char>,
)
    requires
        0 <= i < env.findings(ScannerId::Docker).len(),
        container_of(p, env.findings(ScannerId::Docker)[i], id),
    ensures
        ({
            let f = env.findings(ScannerId::Docker)[i];
            let r = docker_claims(p, env, disk);
            exists|j: int|
                0 <= j < r.len() && on_object(
                    #[trigger] r[j],
                    env.home,
                    "containers"@,
                    id,
                    path_text(p.root),
                    unsigned_field(f.meta, "size_rw_bytes"@),
                ) && r[j].finding == Some(f.id) && r[j].tier == EvidenceTier::Exact
        }),
{
    lemma_strings_of_docker();
    let fs = env.findings(ScannerId::Docker);
    let f = fs[i];
    let tag = uses_docker(disk, p.root);
    lemma_lies_in(p, canonical(path_of(text_field(f.meta, "compose_working_dir"@)->0)));
    assert(runs_in(p, f));
    let pick = container_claim(p, env.home, tag);
    let k = lemma_picked(fs, pick, i);
    let r = docker_claims(p, env, disk);
    assert(r[k] == fs.filter_map(pick)[k]);
}

proof fn lemma_image_claimed(
    fs: Seq<FindingView>,
    p: ProjectView,
    home: Seq<Seq<char>>,
    tag: bool,
    ids: Seq<Seq<char>>,
    i: int,
) -> (j: int)
    requires
        0 <= i < fs.len(),
        used_image(fs[i], ids) is Some,
    ensures
        ({
            let r = image_claims(fs, p, home, tag, ids);
            0 <= j < r.len() && r[j].path == object_path(
                home,
                "images"@,
                used_image(fs[i], ids)->0.id,
            ) && r[j].owner == path_text(p.root) && r[j].kind == EntryKind::Docker
                && r[j].virtual_bytes
        }),
    decreases fs.len(),
{
    let front = fs.drop_last();
    let before = image_claims(front, p, home, tag, ids);
    if i < front.len() {
        assert(front[i] == fs[i]);
        lemma_image_claimed(front, p, home, tag, ids, i)
    } else {
        let o = used_image(fs.last(), ids)->0;
        if image_ids(front, ids).contains(o.id) {
            let k = lemma_image_id(front, ids, o.id);
            lemma_image_claimed(front, p, home, tag, ids, k)
        } else {
            before.len() as int
        }
    }
}

proof fn lemma_image_id(fs: Seq<FindingView>, ids: Seq<Seq<char>>, id: Seq<char>) -> (k: int)
    requires
        image_ids(fs, ids).contains(id),
    ensures
        0 <= k < fs.len(),
        used_image(fs[k], ids) is Some,
        used_image(fs[k], ids)->0.id == id,
    decreases fs.len(),
{
    if fs.len() == 0 {
        assert(image_ids(fs, ids).len() == 0);
        0
    } else {
        let front = fs.drop_last();
        if image_ids(front, ids).contains(id) {
            let k = lemma_image_id(front, ids, id);
            assert(front[k] == fs[k]);
            k
        } else {
            let all = image_ids(fs, ids);
            let j = choose|j: int| 0 <= j < all.len() && all[j] == id;
            if used_image(fs.last(), ids) is Some {
                if j < image_ids(front, ids).len() {
                    assert(image_ids(front, ids)[j] == id);
                }
            } else {
                assert(image_ids(front, ids)[j] == id);
            }
            fs.len() - 1
        }
    }
}

/// An image that a container of the project uses is claimed by the project.
pub proof fn law_images_of_a_project_are_claimed(
    p: ProjectView,
    env: EnvView,
    disk: DiskView,
    i: int,
    id: Seq<char>,
    c: int,
    cid: Seq<char>,
    u: int,
)
    requires
        0 <= i < env.findings(ScannerId::Docker).len(),
        object_is(env.findings(ScannerId::Docker)[i], "image"@, id),
        0 <= c < env.findings(ScannerId::Docker).len(),
        container_of(p, env.findings(ScannerId::Docker)[c], cid),
        ({
            let users = list_of(field(env.findings(ScannerId::Docker)[i].meta, "used_by"@));
            users is Some && 0 <= u < users->0.len() && users->0[u] == DocView::Text(cid)
        }),
    ensures
        ({
            let r = docker_claims(p, env, disk);
            exists|j: int|
                0 <= j < r.len() && (#[trigger] r[j]).path == object_path(env.home, "images"@, id)
                    && r[j].owner == path_text(p.root) && r[j].kind == EntryKind::Docker
                    && r[j].virtual_bytes
        }),
{
    lemma_strings_of_docker();
    let fs = env.findings(ScannerId::Docker);
    let f = fs[c];
    lemma_lies_in(p, canonical(path_of(text_field(f.meta, "compose_working_dir"@)->0)));
    let tag = uses_docker(disk, p.root);
    let ids = fs.filter_map(container_ids(p));
    let k = lemma_picked(fs, container_ids(p), c);
    assert(ids[k] == cid);
    assert(ids.contains(cid));
    let users = list_of(field(fs[i].meta, "used_by"@))->0;
    assert(text_of(Some(users[u])) == Some(cid));
    assert(used_by_any(fs[i].meta, ids));
    let n = lemma_image_claimed(fs, p, env.home, tag, ids, i);
    let containers = fs.filter_map(container_claim(p, env.home, tag));
    let r = docker_claims(p, env, disk);
    assert(r[containers.len() + n] == image_claims(fs, p, env.home, tag, ids)[n]);
}

/// A volume of the Compose project that a container of the project is part of is claimed by the
/// project.
pub proof fn law_volumes_of_a_project_are_claimed(
    p: ProjectView,
    env: EnvView,
    disk: DiskView,
    i: int,
    id: Seq<char>,
    c: int,
    cid: Seq<char>,
    compose: Seq<char>,
)
    requires
        0 <= i < env.findings(ScannerId::Docker).len(),
        object_is(env.findings(ScannerId::Docker)[i], "volume"@, id),
        text_field(env.findings(ScannerId::Docker)[i].meta, "compose_project"@) == Some(compose),
        0 <= c < env.findings(ScannerId::Docker).len(),
        container_of(p, env.findings(ScannerId::Docker)[c], cid),
        text_field(env.findings(ScannerId::Docker)[c].meta, "compose_project"@) == Some(compose),
    ensures
        ({
            let f = env.findings(ScannerId::Docker)[i];
            let r = docker_claims(p, env, disk);
            exists|j: int|
                0 <= j < r.len() && on_object(
                    #[trigger] r[j],
                    env.home,
                    "volumes"@,
                    id,
                    path_text(p.root),
                    unsigned_field(f.meta, "size_bytes"@),
                ) && r[j].finding == Some(f.id) && r[j].tier == EvidenceTier::Exact
        }),
{
    lemma_strings_of_docker();
    let fs = env.findings(ScannerId::Docker);
    let f = fs[c];
    lemma_lies_in(p, canonical(path_of(text_field(f.meta, "compose_working_dir"@)->0)));
    let tag = uses_docker(disk, p.root);
    let ids = fs.filter_map(container_ids(p));
    let k = lemma_picked(fs, container_ids(p), c);
    let composes = fs.filter_map(compose_names(p));
    let m = lemma_picked(fs, compose_names(p), c);
    assert(composes[m] == compose);
    assert(composes.contains(compose));
    let pick = volume_claim(p, env.home, tag, composes);
    let n = lemma_picked(fs, pick, i);
    let r = docker_claims(p, env, disk);
    let vs = fs.filter_map(pick);
    assert(r[r.len() - vs.len() + n] == vs[n]);
}

/// Whether a finding has neither of the labels that link a Docker object to Compose.
pub open spec fn without_labels(f: FindingView) -> bool {
    text_field(f.meta, "compose_working_dir"@) is None && text_field(
        f.meta,
        "compose_project"@,
    ) is None
}

/// A Docker object without a link is claimed by nobody, once, with its bytes.
pub proof fn law_objects_without_a_link_are_listed(
    env: EnvView,
    i: int,
    sort: Seq<char>,
    id: Seq<char>,
)
    requires
        0 <= i < env.findings(ScannerId::Docker).len(),
        sort == "container"@ || sort == "image"@ || sort == "volume"@,
        object_is(env.findings(ScannerId::Docker)[i], sort, id),
        without_labels(env.findings(ScannerId::Docker)[i]),
    ensures
        ({
            let f = env.findings(ScannerId::Docker)[i];
            let r = unlinked_claims(env);
            exists|j: int|
                0 <= j < r.len() && on_object(
                    #[trigger] r[j],
                    env.home,
                    sort + "s"@,
                    id,
                    "unattributed"@,
                    unsigned_field(
                        f.meta,
                        if sort == "container"@ {
                            "size_rw_bytes"@
                        } else {
                            "size_bytes"@
                        },
                    ),
                ) && r[j].finding == Some(f.id) && r[j].tier == EvidenceTier::Observed
        }),
{
    lemma_strings_of_docker();
    lemma_plurals();
    let fs = env.findings(ScannerId::Docker);
    let a = fs.filter_map(loose_container(env.home));
    let b = fs.filter_map(loose_image(env.home));
    let c = fs.filter_map(loose_volume(env.home));
    let r = unlinked_claims(env);
    if sort == "container"@ {
        let k = lemma_picked(fs, loose_container(env.home), i);
        assert(r[k] == a[k]);
    } else if sort == "image"@ {
        let k = lemma_picked(fs, loose_image(env.home), i);
        assert(r[a.len() + k] == b[k]);
    } else {
        let k = lemma_picked(fs, loose_volume(env.home), i);
        assert(r[a.len() + b.len() + k] == c[k]);
    }
}

proof fn lemma_plurals()
    ensures
        "container"@ + "s"@ == "containers"@,
        "image"@ + "s"@ == "images"@,
        "volume"@ + "s"@ == "volumes"@,
{
    reveal_strlit("container");
    reveal_strlit("containers");
    reveal_strlit("image");
    reveal_strlit("images");
    reveal_strlit("volume");
    reveal_strlit("volumes");
    reveal_strlit("s");
    assert("container"@ + "s"@ =~= "containers"@);
    assert("image"@ + "s"@ =~= "images"@);
    assert("volume"@ + "s"@ =~= "volumes"@);
}

/// Only Docker objects without a link are claimed by nobody.
pub proof fn law_objects_with_a_link_are_not_listed(env: EnvView, j: int)
    requires
        0 <= j < unlinked_claims(env).len(),
    ensures
        exists|i: int|
            0 <= i < env.findings(ScannerId::Docker).len() && unlinked_claims(env)[j].finding
                == Some((#[trigger] env.findings(ScannerId::Docker)[i]).id) && without_labels(
                env.findings(ScannerId::Docker)[i],
            ),
        unlinked_claims(env)[j].owner == "unattributed"@,
        unlinked_claims(env)[j].virtual_bytes,
{
    let fs = env.findings(ScannerId::Docker);
    let a = fs.filter_map(loose_container(env.home));
    let b = fs.filter_map(loose_image(env.home));
    let c = fs.filter_map(loose_volume(env.home));
    let i = if j < a.len() {
        lemma_picked_from(fs, loose_container(env.home), j)
    } else if j < a.len() + b.len() {
        lemma_picked_from(fs, loose_image(env.home), j - a.len())
    } else {
        lemma_picked_from(fs, loose_volume(env.home), j - a.len() - b.len())
    };
    assert(unlinked_claims(env)[j].finding == Some(fs[i].id));
}

} // verus!
