//! What belongs to a project by what the sections have found: its directories and build output,
//! its Docker objects, and the processes that work in it.

use vstd::prelude::*;

use crate::attribution::lsof::{cwd_of, OpenFile, OpenFileView};
use crate::attribution::model::{
    plain_claim, put, put_all, Claim, ClaimView, EntryKind, EnvView, EvidenceTier, Proc, ProcKind,
    ProcView, ResolveEnv, UNATTRIBUTED_OWNER,
};
use crate::attribution::paths::{canonical, tree_path};
use crate::attribution::projects::discovery::basename;
use crate::attribution::projects::{in_project, put_text, under_project, Project, ProjectView};
use crate::disk::{Disk, DiskView, NodeKind};
use crate::doc::{field, list_of, text_field, text_of, unsigned_field, Doc, DocView};
use crate::fspath::{child, file_name, path_of, path_text, under, FilePath};
use crate::scan::{Finding, FindingKind, FindingView, ScannerId};
use crate::seqs::lemma_filter_map_start;
use crate::text::{
    cat2, cat4, chars_of, listed, lower_text, lowered, same, starts, str_starts, string_of,
    strip_suffix, without_suffix,
};

use super::artifacts::{cargo_target_dir_claims, redirected_claims};
use super::derive::{end_name, end_of};

verus! {

broadcast use crate::disk::group_asks;

/// The claim of a project on its root.
pub open spec fn root_claim(p: ProjectView) -> ClaimView {
    plain_claim(
        p.root,
        path_text(p.root),
        EntryKind::WorkingTree,
        EvidenceTier::Exact,
        if p.is_git {
            "git repository"@
        } else {
            "project manifest"@
        },
    ).labelled(p.name)
}

/// The claim of a project on another checkout.
pub open spec fn checkout_claim(p: ProjectView, worktree: Seq<Seq<char>>) -> ClaimView {
    plain_claim(
        worktree,
        path_text(p.root),
        EntryKind::Worktree,
        EvidenceTier::Exact,
        ".git/worktrees"@,
    ).labelled(basename(worktree))
}

/// What speaks for a build artifact.
pub open spec fn artifact_evidence(meta: DocView) -> Seq<char> {
    match text_field(meta, "marker"@) {
        Some(m) => m + " beside it"@,
        None => match text_field(meta, "artifact"@) {
            Some(a) => a + " artifact"@,
            None => "build artifact"@,
        },
    }
}

/// A path from the project's root, or its name where it does not lie there.
pub open spec fn label_in(p: ProjectView, path: Seq<Seq<char>>) -> Seq<char> {
    if under(path, p.root) {
        path_text(path.skip(p.root.len() as int))
    } else {
        end_name(path)
    }
}

/// A number, or zero.
pub open spec fn or_zero(n: Option<u64>) -> u64 {
    match n {
        Some(x) => x,
        None => 0,
    }
}

/// What `shared` leaves of `size`.
pub open spec fn less(size: u64, shared: u64) -> u64 {
    if shared <= size {
        (size - shared) as u64
    } else {
        0
    }
}

/// The claim of a project on build output that was found in it. Bytes that are linked from
/// elsewhere too do not count.
pub open spec fn artifact_claim(p: ProjectView) -> spec_fn(FindingView) -> Option<ClaimView> {
    |f: FindingView|
        if f.kind == FindingKind::BuildArtifact && f.path is Some && in_project(p, f.path->0) {
            let c = plain_claim(
                f.path->0,
                path_text(p.root),
                EntryKind::Artifacts,
                EvidenceTier::Exact,
                artifact_evidence(f.meta),
            ).labelled(label_in(p, f.path->0)).of_finding(f.id);
            match f.size_bytes {
                Some(size) => Some(
                    c.sized(less(size, or_zero(unsigned_field(f.meta, "shared_hardlink_bytes"@)))),
                ),
                None => Some(c),
            }
        } else {
            None
        }
}

/// The claims of a project on its directories and build output, and on the target directories of
/// Cargo that lie elsewhere.
pub open spec fn artifact_claims(p: ProjectView, env: EnvView, disk: DiskView) -> Seq<ClaimView> {
    directory_claims(p, env) + redirected_claims(p, env, disk)
}

/// The claims of a project on its directories and build output.
pub open spec fn directory_claims(p: ProjectView, env: EnvView) -> Seq<ClaimView> {
    seq![root_claim(p)] + Seq::new(
        p.worktrees.len(),
        |i: int| checkout_claim(p, p.worktrees[i]),
    ) + env.findings(ScannerId::Fs).filter_map(artifact_claim(p))
}

fn working_tree_claim(project: &Project, owner: &str) -> (r: Claim)
    requires
        owner@ == path_text(project@.root),
    ensures
        r@ == root_claim(project@),
{
    let evidence = if project.is_git {
        "git repository"
    } else {
        "project manifest"
    };
    Claim::new(
        project.root.copy(),
        owner,
        EntryKind::WorkingTree,
        EvidenceTier::Exact,
        evidence,
    ).label(project.name.as_str())
}

fn worktree_claim(project: &Project, worktree: &FilePath, owner: &str) -> (r: Claim)
    requires
        owner@ == path_text(project@.root),
    ensures
        r@ == checkout_claim(project@, worktree@),
{
    let label = match worktree.file_name() {
        Some(n) => n.to_owned(),
        None => worktree.text(),
    };
    Claim::new(
        worktree.copy(),
        owner,
        EntryKind::Worktree,
        EvidenceTier::Exact,
        ".git/worktrees",
    ).label(label.as_str())
}

fn evidence_of(meta: &Doc) -> (r: String)
    ensures
        r@ == artifact_evidence(meta@),
{
    match meta.text("marker") {
        Some(m) => cat2(m, " beside it"),
        None => match meta.text("artifact") {
            Some(a) => cat2(a, " artifact"),
            None => "build artifact".to_owned(),
        },
    }
}

fn relative_label(project: &Project, path: &FilePath) -> (r: String)
    ensures
        r@ == label_in(project@, path@),
{
    match path.strip_prefix(&project.root) {
        Some(rel) => rel.text(),
        None => end_of(path),
    }
}

fn fs_artifact_claim(project: &Project, owner: &str, f: &Finding) -> (r: Option<Claim>)
    requires
        owner@ == path_text(project@.root),
    ensures
        r.deep_view() == artifact_claim(project@)(f@),
{
    if f.kind != FindingKind::BuildArtifact {
        return None;
    }
    let path = match &f.path {
        Some(p) => p,
        None => {
            return None;
        },
    };
    if !under_project(path, project) {
        return None;
    }
    let evidence = evidence_of(&f.meta);
    let mut claim = Claim::new(
        path.copy(),
        owner,
        EntryKind::Artifacts,
        EvidenceTier::Exact,
        evidence.as_str(),
    ).label(relative_label(project, path).as_str()).finding(f.id);
    if let Some(size) = f.size_bytes {
        let shared: u64 = match f.meta.unsigned("shared_hardlink_bytes") {
            Some(n) => n,
            None => 0,
        };
        let own: u64 = if shared <= size {
            size - shared
        } else {
            0
        };
        claim = claim.raw_bytes_override(own);
    }
    Some(claim)
}

/// The claims of a project on its root, on its other checkouts, on the build output that was found
/// in them, and on the target directories that it has Cargo put elsewhere.
pub fn artifacts(project: &Project, env: &ResolveEnv, disk: &mut Disk) -> (r: Vec<Claim>)
    requires
        old(disk).wf(),
    ensures
        final(disk).asked(*old(disk)),
        final(disk).holds() ==> r.deep_view() == artifact_claims(project@, env@, old(disk)@),
{
    let mut out = directories(project, env);
    put_all(&mut out, cargo_target_dir_claims(project, env, disk));
    out
}

fn directories(project: &Project, env: &ResolveEnv) -> (r: Vec<Claim>)
    ensures
        r.deep_view() == directory_claims(project@, env@),
{
    let ghost p = project@;
    let owner = project.root.text();
    let mut out: Vec<Claim> = Vec::new();
    put(&mut out, working_tree_claim(project, owner.as_str()));
    let ghost first = out.deep_view();
    assert(first =~= seq![root_claim(p)]);
    let ghost second = Seq::new(p.worktrees.len(), |i: int| checkout_claim(p, p.worktrees[i]));
    let mut i: usize = 0;
    assert(out.deep_view() =~= first + second.take(0));
    while i < project.worktrees.len()
        invariant
            i <= project.worktrees.len(),
            p == project@,
            owner@ == path_text(p.root),
            second == Seq::new(p.worktrees.len(), |i: int| checkout_claim(p, p.worktrees[i])),
            out.deep_view() == first + second.take(i as int),
        decreases project.worktrees.len() - i,
    {
        assert(p.worktrees[i as int] == project.worktrees@[i as int]@);
        put(&mut out, worktree_claim(project, &project.worktrees[i], owner.as_str()));
        assert(out.deep_view() =~= first + second.take(i + 1));
        i = i + 1;
    }
    assert(second.take(i as int) =~= second);
    let ghost front = out.deep_view();
    let findings = env.findings(ScannerId::Fs);
    let ghost all = findings.deep_view();
    let ghost pick = artifact_claim(p);
    let mut k: usize = 0;
    proof {
        lemma_filter_map_start(all, pick);
        assert(out.deep_view() =~= front + all.take(0).filter_map(pick));
    }
    while k < findings.len()
        invariant
            k <= findings.len(),
            p == project@,
            owner@ == path_text(p.root),
            all == findings.deep_view(),
            pick == artifact_claim(p),
            out.deep_view() == front + all.take(k as int).filter_map(pick),
        decreases findings.len() - k,
    {
        proof {
            assert(all[k as int] == findings@[k as int]@);
            all.lemma_filter_map_take_succ(pick, k as int);
        }
        if let Some(c) = fs_artifact_claim(project, owner.as_str(), &findings[k]) {
            put(&mut out, c);
        }
        assert(out.deep_view() =~= front + all.take(k + 1).filter_map(pick));
        k = k + 1;
    }
    assert(all.take(k as int) =~= all);
    out
}

/// Whether a name is one under which Compose looks for its file; the case does not matter.
pub open spec fn compose_name(name: Seq<char>) -> bool {
    let l = lowered(name);
    let stem = if without_suffix(l, ".yml"@) is Some {
        without_suffix(l, ".yml"@)
    } else {
        without_suffix(l, ".yaml"@)
    };
    stem is Some && (stem->0 == "compose"@ || starts(stem->0, "docker-compose"@))
}

/// Whether a name is one under which Compose looks for its file: `compose` or `docker-compose` with
/// anything behind it, and then `.yml` or `.yaml`.
pub fn is_compose_file_name(name: &str) -> (r: bool)
    ensures
        r == compose_name(name@),
{
    let c = chars_of(name);
    let l = lower_text(c.as_slice());
    let stem = match strip_suffix(l.as_slice(), ".yml") {
        Some(s) => s,
        None => match strip_suffix(l.as_slice(), ".yaml") {
            Some(s) => s,
            None => {
                return false;
            },
        },
    };
    let s = string_of(stem);
    same(s.as_str(), "compose") || str_starts(s.as_str(), "docker-compose")
}

/// Whether the entries hold a Compose file or a Dockerfile.
pub open spec fn docker_entries(entries: Seq<(Seq<char>, NodeKind)>) -> bool {
    exists|i: int|
        0 <= i < entries.len() && (compose_name((#[trigger] entries[i]).0) || starts(
            entries[i].0,
            "Dockerfile"@,
        ))
}

/// Whether a directory holds a Compose file or a Dockerfile.
pub open spec fn uses_docker(disk: DiskView, root: Seq<Seq<char>>) -> bool {
    disk.list(root) is Some && docker_entries(disk.list(root)->0)
}

/// Whether a directory itself holds a Compose file or a Dockerfile.
pub fn project_uses_docker(root: &FilePath, disk: &mut Disk) -> (r: bool)
    requires
        old(disk).wf(),
    ensures
        final(disk).asked(*old(disk)),
        final(disk).holds() ==> r == uses_docker(old(disk)@, root@),
{
    match disk.list(root) {
        Some(entries) => {
            let ghost all = entries.deep_view();
            let mut i: usize = 0;
            while i < entries.len()
                invariant
                    i <= entries.len(),
                    all == entries.deep_view(),
                    disk.holds() ==> old(disk)@.list(root@) == Some(all),
                    disk.asked(*old(disk)),
                    forall|j: int|
                        0 <= j < i ==> !(compose_name((#[trigger] all[j]).0) || starts(
                            all[j].0,
                            "Dockerfile"@,
                        )),
                decreases entries.len() - i,
            {
                assert(all[i as int] == entries@[i as int].deep_view());
                let name = entries[i].name.as_str();
                if is_compose_file_name(name) || str_starts(name, "Dockerfile") {
                    return true;
                }
                i = i + 1;
            }
            false
        },
        None => false,
    }
}

/// Where a Docker object stands in the tree of claims: below Docker's own disk, which its bytes are
/// part of.
pub open spec fn object_path(home: Seq<Seq<char>>, kind: Seq<char>, id: Seq<char>) -> Seq<Seq<char>> {
    child(
        child(
            child(child(home, "Library/Containers/com.docker.docker"@), "Data/vms/0/data/docker"@),
            kind,
        ),
        id,
    )
}

fn synthetic_path(home: &FilePath, kind: &str, id: &str) -> (r: FilePath)
    ensures
        r@ == object_path(home@, kind@, id@),
{
    home.child("Library/Containers/com.docker.docker").child("Data/vms/0/data/docker").child(
        kind,
    ).child(id)
}

/// What a Docker object is.
#[verifier::ext_equal]
pub struct ObjectView {
    pub kind: Seq<char>,
    pub id: Seq<char>,
    pub label: Seq<char>,
    pub bytes: u64,
}

/// What a Docker object is.
pub struct Object {
    /// The directory of its kind.
    pub kind: &'static str,
    pub id: String,
    pub label: String,
    pub bytes: u64,
}

impl DeepView for Object {
    type V = ObjectView;

    open spec fn deep_view(&self) -> ObjectView {
        ObjectView { kind: self.kind@, id: self.id@, label: self.label@, bytes: self.bytes }
    }
}

/// Whether a finding is a Docker object of this sort.
pub open spec fn is_object(f: FindingView, sort: Seq<char>) -> bool {
    text_field(f.meta, "object"@) == Some(sort)
}

/// The container that a finding stands for.
pub open spec fn container_in(f: FindingView) -> Option<ObjectView> {
    match text_field(f.meta, "id"@) {
        Some(id) => if is_object(f, "container"@) {
            Some(
                ObjectView {
                    kind: "containers"@,
                    id,
                    label: "container "@ + (match text_field(f.meta, "name"@) {
                        Some(n) => n,
                        None => id,
                    }),
                    bytes: or_zero(unsigned_field(f.meta, "size_rw_bytes"@)),
                },
            )
        } else {
            None
        },
        None => None,
    }
}

/// A text, or an empty one.
pub open spec fn text_or_empty(s: Option<Seq<char>>) -> Seq<char> {
    match s {
        Some(x) => x,
        None => seq![],
    }
}

/// The image that a finding stands for.
pub open spec fn image_in(f: FindingView) -> Option<ObjectView> {
    match text_field(f.meta, "id"@) {
        Some(id) => if is_object(f, "image"@) {
            Some(
                ObjectView {
                    kind: "images"@,
                    id,
                    label: "image "@ + text_or_empty(text_field(f.meta, "repository"@)) + ":"@
                        + text_or_empty(text_field(f.meta, "tag"@)),
                    bytes: or_zero(unsigned_field(f.meta, "size_bytes"@)),
                },
            )
        } else {
            None
        },
        None => None,
    }
}

/// The volume that a finding stands for.
pub open spec fn volume_in(f: FindingView) -> Option<ObjectView> {
    match text_field(f.meta, "name"@) {
        Some(name) => if is_object(f, "volume"@) {
            Some(
                ObjectView {
                    kind: "volumes"@,
                    id: name,
                    label: "volume "@ + name,
                    bytes: or_zero(unsigned_field(f.meta, "size_bytes"@)),
                },
            )
        } else {
            None
        },
        None => None,
    }
}

fn is_sort(f: &Finding, sort: &str) -> (r: bool)
    ensures
        r == is_object(f@, sort@),
{
    match f.meta.text("object") {
        Some(s) => same(s, sort),
        None => false,
    }
}

fn number_of(f: &Finding, key: &str) -> (r: u64)
    ensures
        r == or_zero(unsigned_field(f@.meta, key@)),
{
    match f.meta.unsigned(key) {
        Some(n) => n,
        None => 0,
    }
}

fn read_container(f: &Finding) -> (r: Option<Object>)
    ensures
        r.deep_view() == container_in(f@),
{
    match f.meta.text("id") {
        Some(id) => {
            if !is_sort(f, "container") {
                return None;
            }
            let name = match f.meta.text("name") {
                Some(n) => n,
                None => id,
            };
            Some(
                Object {
                    kind: "containers",
                    id: id.to_owned(),
                    label: cat2("container ", name),
                    bytes: number_of(f, "size_rw_bytes"),
                },
            )
        },
        None => None,
    }
}

fn read_image(f: &Finding) -> (r: Option<Object>)
    ensures
        r.deep_view() == image_in(f@),
{
    match f.meta.text("id") {
        Some(id) => {
            if !is_sort(f, "image") {
                return None;
            }
            proof {
                reveal_strlit("");
                assert(""@ =~= seq![]);
            }
            let repo = match f.meta.text("repository") {
                Some(n) => n,
                None => "",
            };
            let tag = match f.meta.text("tag") {
                Some(n) => n,
                None => "",
            };
            Some(
                Object {
                    kind: "images",
                    id: id.to_owned(),
                    label: cat4("image ", repo, ":", tag),
                    bytes: number_of(f, "size_bytes"),
                },
            )
        },
        None => None,
    }
}

fn read_volume(f: &Finding) -> (r: Option<Object>)
    ensures
        r.deep_view() == volume_in(f@),
{
    match f.meta.text("name") {
        Some(name) => {
            if !is_sort(f, "volume") {
                return None;
            }
            Some(
                Object {
                    kind: "volumes",
                    id: name.to_owned(),
                    label: cat2("volume ", name),
                    bytes: number_of(f, "size_bytes"),
                },
            )
        },
        None => None,
    }
}

/// The claim on a Docker object. Its bytes are Docker's own and take no room beside Docker's disk.
pub open spec fn object_claim(
    home: Seq<Seq<char>>,
    o: ObjectView,
    owner: Seq<char>,
    tier: EvidenceTier,
    evidence: Seq<char>,
    f: FindingView,
) -> ClaimView {
    plain_claim(
        object_path(home, o.kind, o.id),
        owner,
        EntryKind::Docker,
        tier,
        evidence,
    ).labelled(o.label).sized(o.bytes).virtually().of_finding(f.id)
}

fn make_object_claim(
    home: &FilePath,
    o: &Object,
    owner: &str,
    tier: EvidenceTier,
    evidence: &str,
    f: &Finding,
) -> (r: Claim)
    ensures
        r@ == object_claim(home@, o.deep_view(), owner@, tier, evidence@, f@),
{
    Claim::new(
        synthetic_path(home, o.kind, o.id.as_str()),
        owner,
        EntryKind::Docker,
        tier,
        evidence,
    ).label(o.label.as_str()).raw_bytes_override(o.bytes).virtual_bytes().finding(f.id)
}

/// A claim, tagged with Docker where the project uses it.
pub open spec fn tag_docker(c: ClaimView, tag: bool) -> ClaimView {
    if tag {
        c.tagged("docker"@)
    } else {
        c
    }
}

/// Whether a container runs in the project: by the directory that Compose has noted on it.
pub open spec fn runs_in(p: ProjectView, f: FindingView) -> bool {
    match text_field(f.meta, "compose_working_dir"@) {
        Some(dir) => in_project(p, canonical(path_of(dir))),
        None => false,
    }
}

/// The container of the project that a finding stands for.
pub open spec fn own_container(p: ProjectView, f: FindingView) -> Option<ObjectView> {
    if runs_in(p, f) {
        container_in(f)
    } else {
        None
    }
}

/// The claim on a container of the project.
pub open spec fn container_claim(p: ProjectView, home: Seq<Seq<char>>, tag: bool) -> spec_fn(
    FindingView,
) -> Option<ClaimView> {
    |f: FindingView|
        match own_container(p, f) {
            Some(o) => Some(
                tag_docker(
                    object_claim(
                        home,
                        o,
                        path_text(p.root),
                        EvidenceTier::Exact,
                        "compose working_dir label"@,
                        f,
                    ),
                    tag,
                ),
            ),
            None => None,
        }
}

/// The ids of the project's containers.
pub open spec fn container_ids(p: ProjectView) -> spec_fn(FindingView) -> Option<Seq<char>> {
    |f: FindingView|
        match own_container(p, f) {
            Some(o) => Some(o.id),
            None => None,
        }
}

/// The Compose projects that the project's containers are part of.
pub open spec fn compose_names(p: ProjectView) -> spec_fn(FindingView) -> Option<Seq<char>> {
    |f: FindingView|
        match own_container(p, f) {
            Some(_) => text_field(f.meta, "compose_project"@),
            None => None,
        }
}

/// Whether an image is used by one of the containers.
pub open spec fn used_by_any(meta: DocView, ids: Seq<Seq<char>>) -> bool {
    match list_of(field(meta, "used_by"@)) {
        Some(users) => exists|i: int|
            0 <= i < users.len() && text_of(Some(#[trigger] users[i])) is Some && ids.contains(
                text_of(Some(users[i]))->0,
            ),
        None => false,
    }
}

/// The image that a finding stands for, where one of the containers uses it.
pub open spec fn used_image(f: FindingView, ids: Seq<Seq<char>>) -> Option<ObjectView> {
    if used_by_any(f.meta, ids) {
        image_in(f)
    } else {
        None
    }
}

/// The ids of the images that the containers use.
pub open spec fn image_ids(fs: Seq<FindingView>, ids: Seq<Seq<char>>) -> Seq<Seq<char>>
    decreases fs.len(),
{
    if fs.len() == 0 {
        seq![]
    } else {
        match used_image(fs.last(), ids) {
            Some(o) => image_ids(fs.drop_last(), ids).push(o.id),
            None => image_ids(fs.drop_last(), ids),
        }
    }
}

/// The claims on the images that the project's containers use, each image once.
pub open spec fn image_claims(
    fs: Seq<FindingView>,
    p: ProjectView,
    home: Seq<Seq<char>>,
    tag: bool,
    ids: Seq<Seq<char>>,
) -> Seq<ClaimView>
    decreases fs.len(),
{
    if fs.len() == 0 {
        seq![]
    } else {
        let before = image_claims(fs.drop_last(), p, home, tag, ids);
        match used_image(fs.last(), ids) {
            Some(o) => if image_ids(fs.drop_last(), ids).contains(o.id) {
                before
            } else {
                before.push(
                    tag_docker(
                        object_claim(
                            home,
                            o,
                            path_text(p.root),
                            EvidenceTier::Exact,
                            "compose working_dir label"@,
                            fs.last(),
                        ),
                        tag,
                    ),
                )
            },
            None => before,
        }
    }
}

/// The claim on a volume of one of the Compose projects.
pub open spec fn volume_claim(
    p: ProjectView,
    home: Seq<Seq<char>>,
    tag: bool,
    composes: Seq<Seq<char>>,
) -> spec_fn(FindingView) -> Option<ClaimView> {
    |f: FindingView|
        match (volume_in(f), text_field(f.meta, "compose_project"@)) {
            (Some(o), Some(c)) => if composes.contains(c) {
                Some(
                    tag_docker(
                        object_claim(
                            home,
                            o,
                            path_text(p.root),
                            EvidenceTier::Exact,
                            "compose project label"@,
                            f,
                        ),
                        tag,
                    ),
                )
            } else {
                None
            },
            _ => None,
        }
}

/// The claims of a project on Docker objects: its containers, the images that they use, and the
/// volumes of their Compose projects.
pub open spec fn docker_claims(p: ProjectView, env: EnvView, disk: DiskView) -> Seq<ClaimView> {
    let fs = env.findings(ScannerId::Docker);
    let tag = uses_docker(disk, p.root);
    let ids = fs.filter_map(container_ids(p));
    let containers = fs.filter_map(container_claim(p, env.home, tag));
    if ids.len() == 0 {
        containers
    } else {
        containers + image_claims(fs, p, env.home, tag, ids) + fs.filter_map(
            volume_claim(p, env.home, tag, fs.filter_map(compose_names(p))),
        )
    }
}

fn is_run_in(project: &Project, f: &Finding) -> (r: bool)
    ensures
        r == runs_in(project@, f@),
{
    match f.meta.text("compose_working_dir") {
        Some(dir) => under_project(&tree_path(&FilePath::from_text(dir)), project),
        None => false,
    }
}

fn read_own_container(project: &Project, f: &Finding) -> (r: Option<Object>)
    ensures
        r.deep_view() == own_container(project@, f@),
{
    if is_run_in(project, f) {
        read_container(f)
    } else {
        None
    }
}

fn is_used(meta: &Doc, ids: &Vec<String>) -> (r: bool)
    ensures
        r == used_by_any(meta@, ids.deep_view()),
{
    match meta.list("used_by") {
        Some(users) => {
            let ghost all = users.deep_view();
            let mut i: usize = 0;
            while i < users.len()
                invariant
                    i <= users.len(),
                    all == users.deep_view(),
                    list_of(field(meta@, "used_by"@)) == Some(all),
                    forall|j: int|
                        0 <= j < i ==> !(text_of(Some(#[trigger] all[j])) is Some
                            && ids.deep_view().contains(text_of(Some(all[j]))->0)),
                decreases users.len() - i,
            {
                assert(all[i as int] == users@[i as int]@);
                if let Some(s) = users[i].as_str() {
                    if listed(ids, s) {
                        return true;
                    }
                }
                i = i + 1;
            }
            false
        },
        None => false,
    }
}

fn tagged_docker(c: Claim, tag: bool) -> (r: Claim)
    ensures
        r@ == tag_docker(c@, tag),
{
    if tag {
        c.ecosystem("docker")
    } else {
        c
    }
}

struct Containers {
    claims: Vec<Claim>,
    ids: Vec<String>,
    composes: Vec<String>,
}

fn own_containers(project: &Project, findings: &[Finding], home: &FilePath, tag: bool) -> (r: Containers)
    ensures
        r.claims.deep_view() == findings.deep_view().filter_map(
            container_claim(project@, home@, tag),
        ),
        r.ids.deep_view() == findings.deep_view().filter_map(container_ids(project@)),
        r.composes.deep_view() == findings.deep_view().filter_map(compose_names(project@)),
{
    let ghost all = findings.deep_view();
    let ghost f1 = container_claim(project@, home@, tag);
    let ghost f2 = container_ids(project@);
    let ghost f3 = compose_names(project@);
    let owner = project.root.text();
    let mut claims: Vec<Claim> = Vec::new();
    let mut ids: Vec<String> = Vec::new();
    let mut composes: Vec<String> = Vec::new();
    let mut i: usize = 0;
    proof {
        lemma_filter_map_start(all, f1);
        lemma_filter_map_start(all, f2);
        lemma_filter_map_start(all, f3);
        assert(claims.deep_view() =~= all.take(0).filter_map(f1));
        assert(ids.deep_view() =~= all.take(0).filter_map(f2));
        assert(composes.deep_view() =~= all.take(0).filter_map(f3));
    }
    while i < findings.len()
        invariant
            i <= findings.len(),
            all == findings.deep_view(),
            owner@ == path_text(project@.root),
            f1 == container_claim(project@, home@, tag),
            f2 == container_ids(project@),
            f3 == compose_names(project@),
            claims.deep_view() == all.take(i as int).filter_map(f1),
            ids.deep_view() == all.take(i as int).filter_map(f2),
            composes.deep_view() == all.take(i as int).filter_map(f3),
        decreases findings.len() - i,
    {
        let f = &findings[i];
        proof {
            assert(all[i as int] == f@);
            all.lemma_filter_map_take_succ(f1, i as int);
            all.lemma_filter_map_take_succ(f2, i as int);
            all.lemma_filter_map_take_succ(f3, i as int);
        }
        if let Some(o) = read_own_container(project, f) {
            let c = make_object_claim(
                home,
                &o,
                owner.as_str(),
                EvidenceTier::Exact,
                "compose working_dir label",
                f,
            );
            put(&mut claims, tagged_docker(c, tag));
            put_text(&mut ids, o.id);
            if let Some(cp) = f.meta.text("compose_project") {
                put_text(&mut composes, cp.to_owned());
            }
        }
        assert(claims.deep_view() =~= all.take(i + 1).filter_map(f1));
        assert(ids.deep_view() =~= all.take(i + 1).filter_map(f2));
        assert(composes.deep_view() =~= all.take(i + 1).filter_map(f3));
        i = i + 1;
    }
    assert(all.take(i as int) =~= all);
    Containers { claims, ids, composes }
}

fn used_images(
    project: &Project,
    findings: &[Finding],
    home: &FilePath,
    tag: bool,
    ids: &Vec<String>,
) -> (r: Vec<Claim>)
    ensures
        r.deep_view() == image_claims(
            findings.deep_view(),
            project@,
            home@,
            tag,
            ids.deep_view(),
        ),
{
    let ghost all = findings.deep_view();
    let ghost cs = ids.deep_view();
    let owner = project.root.text();
    let mut out: Vec<Claim> = Vec::new();
    let mut seen: Vec<String> = Vec::new();
    let mut i: usize = 0;
    proof {
        assert(out.deep_view() =~= image_claims(all.take(0), project@, home@, tag, cs));
        assert(seen.deep_view() =~= image_ids(all.take(0), cs));
    }
    while i < findings.len()
        invariant
            i <= findings.len(),
            all == findings.deep_view(),
            cs == ids.deep_view(),
            owner@ == path_text(project@.root),
            out.deep_view() == image_claims(all.take(i as int), project@, home@, tag, cs),
            seen.deep_view() == image_ids(all.take(i as int), cs),
        decreases findings.len() - i,
    {
        let f = &findings[i];
        proof {
            assert(all.take(i + 1).drop_last() =~= all.take(i as int));
            assert(all.take(i + 1).last() == f@);
        }
        if is_used(&f.meta, ids) {
            if let Some(o) = read_image(f) {
                if !listed(&seen, o.id.as_str()) {
                    let c = make_object_claim(
                        home,
                        &o,
                        owner.as_str(),
                        EvidenceTier::Exact,
                        "compose working_dir label",
                        f,
                    );
                    put(&mut out, tagged_docker(c, tag));
                }
                put_text(&mut seen, o.id);
            }
        }
        i = i + 1;
    }
    assert(all.take(i as int) =~= all);
    out
}

fn own_volumes(
    project: &Project,
    findings: &[Finding],
    home: &FilePath,
    tag: bool,
    composes: &Vec<String>,
) -> (r: Vec<Claim>)
    ensures
        r.deep_view() == findings.deep_view().filter_map(
            volume_claim(project@, home@, tag, composes.deep_view()),
        ),
{
    let ghost all = findings.deep_view();
    let ghost pick = volume_claim(project@, home@, tag, composes.deep_view());
    let owner = project.root.text();
    let mut out: Vec<Claim> = Vec::new();
    let mut i: usize = 0;
    proof {
        lemma_filter_map_start(all, pick);
        assert(out.deep_view() =~= all.take(0).filter_map(pick));
    }
    while i < findings.len()
        invariant
            i <= findings.len(),
            all == findings.deep_view(),
            owner@ == path_text(project@.root),
            pick == volume_claim(project@, home@, tag, composes.deep_view()),
            out.deep_view() == all.take(i as int).filter_map(pick),
        decreases findings.len() - i,
    {
        let f = &findings[i];
        proof {
            assert(all[i as int] == f@);
            all.lemma_filter_map_take_succ(pick, i as int);
        }
        if let Some(o) = read_volume(f) {
            if let Some(cp) = f.meta.text("compose_project") {
                if listed(composes, cp) {
                    let c = make_object_claim(
                        home,
                        &o,
                        owner.as_str(),
                        EvidenceTier::Exact,
                        "compose project label",
                        f,
                    );
                    put(&mut out, tagged_docker(c, tag));
                }
            }
        }
        assert(out.deep_view() =~= all.take(i + 1).filter_map(pick));
        i = i + 1;
    }
    assert(all.take(i as int) =~= all);
    out
}

/// The claims of a project on Docker objects: the containers whose Compose directory lies in it,
/// the images that they use, and the volumes of their Compose projects. Only a project with a
/// Compose file or a Dockerfile is placed in Docker's ecosystem by them.
pub fn docker(project: &Project, env: &ResolveEnv, disk: &mut Disk) -> (r: Vec<Claim>)
    requires
        old(disk).wf(),
    ensures
        final(disk).asked(*old(disk)),
        final(disk).holds() ==> r.deep_view() == docker_claims(project@, env@, old(disk)@),
{
    let findings = env.findings(ScannerId::Docker);
    let tag = project_uses_docker(&project.root, disk);
    let own = own_containers(project, findings, &env.home, tag);
    let mut out = own.claims;
    assert(own.ids.deep_view().len() == own.ids.len());
    if own.ids.len() == 0 {
        return out;
    }
    put_all(&mut out, used_images(project, findings, &env.home, tag, &own.ids));
    put_all(&mut out, own_volumes(project, findings, &env.home, tag, &own.composes));
    out
}

/// Whether a Docker object has a link to a Compose project: a directory or a name of one.
pub open spec fn has_link(f: FindingView) -> bool {
    text_field(f.meta, "compose_working_dir"@) is Some || text_field(
        f.meta,
        "compose_project"@,
    ) is Some
}

/// The claim of nobody on an object.
pub open spec fn unlinked_claim(
    home: Seq<Seq<char>>,
    o: Option<ObjectView>,
    f: FindingView,
) -> Option<ClaimView> {
    match o {
        Some(o) => if has_link(f) {
            None
        } else {
            Some(
                object_claim(
                    home,
                    o,
                    UNATTRIBUTED_OWNER@,
                    EvidenceTier::Observed,
                    "no compose project links it"@,
                    f,
                ),
            )
        },
        None => None,
    }
}

/// The claim of nobody on a container without a link.
pub open spec fn loose_container(home: Seq<Seq<char>>) -> spec_fn(FindingView) -> Option<ClaimView> {
    |f: FindingView| unlinked_claim(home, container_in(f), f)
}

/// The claim of nobody on an image without a link.
pub open spec fn loose_image(home: Seq<Seq<char>>) -> spec_fn(FindingView) -> Option<ClaimView> {
    |f: FindingView| unlinked_claim(home, image_in(f), f)
}

/// The claim of nobody on a volume without a link.
pub open spec fn loose_volume(home: Seq<Seq<char>>) -> spec_fn(FindingView) -> Option<ClaimView> {
    |f: FindingView| unlinked_claim(home, volume_in(f), f)
}

/// The claims of nobody on the Docker objects that no Compose project links.
pub open spec fn unlinked_claims(env: EnvView) -> Seq<ClaimView> {
    let fs = env.findings(ScannerId::Docker);
    fs.filter_map(loose_container(env.home)) + fs.filter_map(loose_image(env.home)) + fs.filter_map(
        loose_volume(env.home),
    )
}

fn make_unlinked(home: &FilePath, o: Option<Object>, f: &Finding) -> (r: Option<Claim>)
    ensures
        r.deep_view() == unlinked_claim(home@, o.deep_view(), f@),
{
    match o {
        Some(o) => if f.meta.text("compose_working_dir").is_some() || f.meta.text(
            "compose_project",
        ).is_some() {
            None
        } else {
            Some(
                make_object_claim(
                    home,
                    &o,
                    UNATTRIBUTED_OWNER,
                    EvidenceTier::Observed,
                    "no compose project links it",
                    f,
                ),
            )
        },
        None => None,
    }
}

/// The claims of nobody on the Docker objects that no Compose project links: containers, images and
/// volumes. An object with a link into a directory that is no project is claimed by no one at all.
pub fn docker_unlinked(env: &ResolveEnv) -> (r: Vec<Claim>)
    ensures
        r.deep_view() == unlinked_claims(env@),
{
    let findings = env.findings(ScannerId::Docker);
    let ghost all = findings.deep_view();
    let ghost f1 = loose_container(env@.home);
    let ghost f2 = loose_image(env@.home);
    let ghost f3 = loose_volume(env@.home);
    let mut containers: Vec<Claim> = Vec::new();
    let mut images: Vec<Claim> = Vec::new();
    let mut volumes: Vec<Claim> = Vec::new();
    let mut i: usize = 0;
    proof {
        lemma_filter_map_start(all, f1);
        lemma_filter_map_start(all, f2);
        lemma_filter_map_start(all, f3);
        assert(containers.deep_view() =~= all.take(0).filter_map(f1));
        assert(images.deep_view() =~= all.take(0).filter_map(f2));
        assert(volumes.deep_view() =~= all.take(0).filter_map(f3));
    }
    while i < findings.len()
        invariant
            i <= findings.len(),
            all == findings.deep_view(),
            f1 == loose_container(env@.home),
            f2 == loose_image(env@.home),
            f3 == loose_volume(env@.home),
            containers.deep_view() == all.take(i as int).filter_map(f1),
            images.deep_view() == all.take(i as int).filter_map(f2),
            volumes.deep_view() == all.take(i as int).filter_map(f3),
        decreases findings.len() - i,
    {
        let f = &findings[i];
        proof {
            assert(all[i as int] == f@);
            all.lemma_filter_map_take_succ(f1, i as int);
            all.lemma_filter_map_take_succ(f2, i as int);
            all.lemma_filter_map_take_succ(f3, i as int);
        }
        if let Some(c) = make_unlinked(&env.home, read_container(f), f) {
            put(&mut containers, c);
        }
        if let Some(c) = make_unlinked(&env.home, read_image(f), f) {
            put(&mut images, c);
        }
        if let Some(c) = make_unlinked(&env.home, read_volume(f), f) {
            put(&mut volumes, c);
        }
        assert(containers.deep_view() =~= all.take(i + 1).filter_map(f1));
        assert(images.deep_view() =~= all.take(i + 1).filter_map(f2));
        assert(volumes.deep_view() =~= all.take(i + 1).filter_map(f3));
        i = i + 1;
    }
    assert(all.take(i as int) =~= all);
    let mut out = containers;
    put_all(&mut out, images);
    put_all(&mut out, volumes);
    out
}

/// The programs that are shells.
pub open spec fn shell_name(command: Seq<char>) -> bool {
    command == "zsh"@ || command == "bash"@ || command == "fish"@ || command == "sh"@ || command
        == "nu"@
}

/// Whether a process listens on a port.
pub open spec fn listens(ports: Seq<(u32, u16)>, pid: u32) -> bool {
    exists|i: int| 0 <= i < ports.len() && (#[trigger] ports[i]).0 == pid
}

/// What sort of program a process runs.
pub open spec fn proc_kind(command: Seq<char>, pid: u32, ports: Seq<(u32, u16)>) -> ProcKind {
    if shell_name(command) {
        ProcKind::Shell
    } else if listens(ports, pid) {
        ProcKind::Server
    } else {
        ProcKind::Other
    }
}

/// What sort of program a process runs: a shell, one that listens on a port, or another.
pub fn classify(command: &str, pid: u32, listening: &Vec<(u32, u16)>) -> (r: ProcKind)
    ensures
        r == proc_kind(command@, pid, listening@),
{
    if same(command, "zsh") || same(command, "bash") || same(command, "fish") || same(
        command,
        "sh",
    ) || same(command, "nu") {
        return ProcKind::Shell;
    }
    let mut i: usize = 0;
    while i < listening.len()
        invariant
            i <= listening.len(),
            !shell_name(command@),
            forall|j: int| 0 <= j < i ==> (#[trigger] listening@[j]).0 != pid,
        decreases listening.len() - i,
    {
        if listening[i].0 == pid {
            return ProcKind::Server;
        }
        i = i + 1;
    }
    ProcKind::Other
}

/// The port that a finding of the Ports section gives, with its process.
pub open spec fn port_of() -> spec_fn(FindingView) -> Option<(u32, u16)> {
    |f: FindingView|
        match (unsigned_field(f.meta, "pid"@), unsigned_field(f.meta, "port"@)) {
            (Some(pid), Some(port)) => Some((pid as u32, port as u16)),
            _ => None,
        }
}

/// The ports on which processes listen.
pub fn listening_ports_by_pid(env: &ResolveEnv) -> (r: Vec<(u32, u16)>)
    ensures
        r@ == env@.findings(ScannerId::Ports).filter_map(port_of()),
{
    let findings = env.findings(ScannerId::Ports);
    let ghost all = findings.deep_view();
    let mut out: Vec<(u32, u16)> = Vec::new();
    let mut i: usize = 0;
    proof {
        lemma_filter_map_start(all, port_of());
        assert(out@ =~= all.take(0).filter_map(port_of()));
    }
    while i < findings.len()
        invariant
            i <= findings.len(),
            all == findings.deep_view(),
            out@ == all.take(i as int).filter_map(port_of()),
        decreases findings.len() - i,
    {
        let f = &findings[i];
        proof {
            assert(all[i as int] == f@);
            all.lemma_filter_map_take_succ(port_of(), i as int);
        }
        if let Some(pid) = f.meta.unsigned("pid") {
            if let Some(port) = f.meta.unsigned("port") {
                #[verifier::truncate]
                let pair = (pid as u32, port as u16);
                out.push(pair);
            }
        }
        assert(out@ =~= all.take(i + 1).filter_map(port_of()));
        i = i + 1;
    }
    assert(all.take(i as int) =~= all);
    out
}

/// The program of a process: the last that is listed.
pub open spec fn command_of(files: Seq<OpenFileView>, pid: u32) -> Seq<char>
    decreases files.len(),
{
    if files.len() == 0 {
        seq![]
    } else if files.last().pid == pid {
        files.last().command
    } else {
        command_of(files.drop_last(), pid)
    }
}

/// Whether a process works in the project.
pub open spec fn works_in(p: ProjectView, files: Seq<OpenFileView>, pid: u32) -> bool {
    cwd_of(files, pid) is Some && in_project(p, canonical(cwd_of(files, pid)->0))
}

/// A process, as far as the files and ports tell.
pub open spec fn process(files: Seq<OpenFileView>, ports: Seq<(u32, u16)>, pid: u32) -> ProcView {
    ProcView {
        pid,
        name: command_of(files, pid),
        kind: proc_kind(command_of(files, pid), pid, ports),
        cwd: cwd_of(files, pid)->0,
    }
}

/// Whether these are the processes that work in the project, each once, in the order of their
/// numbers.
pub open spec fn are_processes(
    procs: Seq<ProcView>,
    p: ProjectView,
    files: Seq<OpenFileView>,
    ports: Seq<(u32, u16)>,
) -> bool {
    &&& forall|i: int, j: int| 0 <= i < j < procs.len() ==> procs[i].pid < procs[j].pid
    &&& forall|x: ProcView|
        procs.contains(x) <==> works_in(p, files, x.pid) && x == process(files, ports, x.pid)
}

/// Whether these are the ports on which the project's processes listen, each once, in their order.
pub open spec fn are_ports(
    r: Seq<u16>,
    p: ProjectView,
    files: Seq<OpenFileView>,
    ports: Seq<(u32, u16)>,
) -> bool {
    &&& forall|i: int, j: int| 0 <= i < j < r.len() ==> r[i] < r[j]
    &&& forall|x: u16|
        r.contains(x) <==> exists|i: int|
            0 <= i < ports.len() && (#[trigger] ports[i]).1 == x && works_in(p, files, ports[i].0)
}

fn find_cwd(files: &Vec<OpenFile>, pid: u32) -> (r: Option<&FilePath>)
    ensures
        r is Some <==> cwd_of(files.deep_view(), pid) is Some,
        r is Some ==> r->0@ == cwd_of(files.deep_view(), pid)->0,
{
    let ghost all = files.deep_view();
    let mut n: usize = files.len();
    assert(all.take(n as int) =~= all);
    while n > 0
        invariant
            n <= files.len(),
            all == files.deep_view(),
            cwd_of(all, pid) == cwd_of(all.take(n as int), pid),
        decreases n,
    {
        let f = &files[n - 1];
        assert(all.take(n as int).last() == f@);
        assert(all.take(n as int).drop_last() =~= all.take(n - 1));
        if f.pid == pid && same(f.fd.as_str(), "cwd") {
            return Some(&f.path);
        }
        n = n - 1;
    }
    None
}

fn find_command(files: &Vec<OpenFile>, pid: u32) -> (r: String)
    ensures
        r@ == command_of(files.deep_view(), pid),
{
    let ghost all = files.deep_view();
    let mut n: usize = files.len();
    assert(all.take(n as int) =~= all);
    while n > 0
        invariant
            n <= files.len(),
            all == files.deep_view(),
            command_of(all, pid) == command_of(all.take(n as int), pid),
        decreases n,
    {
        let f = &files[n - 1];
        assert(all.take(n as int).last() == f@);
        assert(all.take(n as int).drop_last() =~= all.take(n - 1));
        if f.pid == pid {
            return f.command.clone();
        }
        n = n - 1;
    }
    let r = String::new();
    assert(r@ =~= seq![]);
    r
}

fn is_working_in(project: &Project, files: &Vec<OpenFile>, pid: u32) -> (r: bool)
    ensures
        r == works_in(project@, files.deep_view(), pid),
{
    match find_cwd(files, pid) {
        Some(cwd) => under_project(&tree_path(cwd), project),
        None => false,
    }
}

/// The numbers of processes, in their order.
pub open spec fn ascending(v: Seq<u32>) -> bool {
    forall|i: int, j: int| 0 <= i < j < v.len() ==> v[i] < v[j]
}

fn insert_pid(v: &mut Vec<u32>, pid: u32)
    requires
        ascending(old(v)@),
    ensures
        ascending(final(v)@),
        forall|x: u32| #[trigger] final(v)@.contains(x) <==> old(v)@.contains(x) || x == pid,
{
    let ghost was = v@;
    let mut n: usize = v.len();
    while n > 0 && v[n - 1] >= pid
        invariant
            n <= v.len(),
            v@ == was,
            ascending(was),
            forall|j: int| n <= j < was.len() ==> was[j] >= pid,
        decreases n,
    {
        n = n - 1;
    }
    if n < v.len() && v[n] == pid {
        assert(was[n as int] == pid);
        return;
    }
    v.insert(n, pid);
    proof {
        assert(v@ =~= was.insert(n as int, pid));
        assert forall|x: u32| #[trigger] v@.contains(x) <==> was.contains(x) || x == pid by {
            if was.contains(x) {
                let i = choose|i: int| 0 <= i < was.len() && was[i] == x;
                assert(v@[if i < n {
                    i
                } else {
                    i + 1
                }] == x);
            }
            if x == pid {
                assert(v@[n as int] == x);
            }
            if v@.contains(x) {
                let i = choose|i: int| 0 <= i < v@.len() && v@[i] == x;
                if i < n {
                    assert(was[i] == x);
                } else if i > n {
                    assert(was[i - 1] == x);
                }
            }
        }
    }
}

pub(crate) fn insert_port(v: &mut Vec<u16>, port: u16)
    requires
        forall|i: int, j: int| 0 <= i < j < old(v)@.len() ==> old(v)@[i] < old(v)@[j],
    ensures
        forall|i: int, j: int| 0 <= i < j < final(v)@.len() ==> final(v)@[i] < final(v)@[j],
        forall|x: u16| #[trigger] final(v)@.contains(x) <==> old(v)@.contains(x) || x == port,
{
    let ghost was = v@;
    let mut n: usize = v.len();
    while n > 0 && v[n - 1] >= port
        invariant
            n <= v.len(),
            v@ == was,
            forall|i: int, j: int| 0 <= i < j < was.len() ==> was[i] < was[j],
            forall|j: int| n <= j < was.len() ==> was[j] >= port,
        decreases n,
    {
        n = n - 1;
    }
    if n < v.len() && v[n] == port {
        assert(was[n as int] == port);
        return;
    }
    v.insert(n, port);
    proof {
        assert(v@ =~= was.insert(n as int, port));
        assert forall|x: u16| #[trigger] v@.contains(x) <==> was.contains(x) || x == port by {
            if was.contains(x) {
                let i = choose|i: int| 0 <= i < was.len() && was[i] == x;
                assert(v@[if i < n {
                    i
                } else {
                    i + 1
                }] == x);
            }
            if x == port {
                assert(v@[n as int] == x);
            }
            if v@.contains(x) {
                let i = choose|i: int| 0 <= i < v@.len() && v@[i] == x;
                if i < n {
                    assert(was[i] == x);
                } else if i > n {
                    assert(was[i - 1] == x);
                }
            }
        }
    }
}

proof fn lemma_cwd_is_listed(files: Seq<OpenFileView>, pid: u32)
    requires
        cwd_of(files, pid) is Some,
    ensures
        exists|i: int| 0 <= i < files.len() && (#[trigger] files[i]).pid == pid,
    decreases files.len(),
{
    if files.len() > 0 {
        if files.last().pid == pid && files.last().fd == "cwd"@ {
            assert(files[files.len() - 1].pid == pid);
        } else {
            lemma_cwd_is_listed(files.drop_last(), pid);
            let i = choose|i: int|
                0 <= i < files.drop_last().len() && (#[trigger] files.drop_last()[i]).pid == pid;
            assert(files[i].pid == pid);
        }
    }
}

fn working_pids(project: &Project, files: &Vec<OpenFile>) -> (r: Vec<u32>)
    ensures
        ascending(r@),
        forall|pid: u32| #[trigger]
            r@.contains(pid) <==> works_in(project@, files.deep_view(), pid),
{
    let ghost all = files.deep_view();
    let mut out: Vec<u32> = Vec::new();
    let mut i: usize = 0;
    while i < files.len()
        invariant
            i <= files.len(),
            all == files.deep_view(),
            ascending(out@),
            forall|pid: u32| #[trigger]
                out@.contains(pid) <==> works_in(project@, all, pid) && exists|k: int|
                    0 <= k < i && (#[trigger] all[k]).pid == pid,
        decreases files.len() - i,
    {
        let pid = files[i].pid;
        let ghost was = out@;
        assert(all[i as int].pid == pid);
        if is_working_in(project, files, pid) {
            insert_pid(&mut out, pid);
        }
        assert forall|x: u32| #[trigger] out@.contains(x) <==> works_in(project@, all, x)
            && exists|k: int| 0 <= k < i + 1 && (#[trigger] all[k]).pid == x by {
            assert(was.contains(x) <==> works_in(project@, all, x) && exists|k: int|
                0 <= k < i && (#[trigger] all[k]).pid == x);
            if exists|k: int| 0 <= k < i + 1 && (#[trigger] all[k]).pid == x {
                let k = choose|k: int| 0 <= k < i + 1 && (#[trigger] all[k]).pid == x;
                if k < i {
                    assert(all[k].pid == x);
                }
            }
        }
        i = i + 1;
    }
    assert forall|pid: u32| #[trigger] out@.contains(pid) <==> works_in(project@, all, pid) by {
        if works_in(project@, all, pid) {
            lemma_cwd_is_listed(all, pid);
            let k = choose|k: int| 0 <= k < all.len() && (#[trigger] all[k]).pid == pid;
            assert(0 <= k < i && all[k].pid == pid);
        }
    }
    out
}

fn make_processes(pids: &Vec<u32>, project: &Project, files: &Vec<OpenFile>, listening: &Vec<(u32, u16)>) -> (r: Vec<
    Proc,
>)
    requires
        ascending(pids@),
        forall|pid: u32| #[trigger]
            pids@.contains(pid) <==> works_in(project@, files.deep_view(), pid),
    ensures
        are_processes(r.deep_view(), project@, files.deep_view(), listening@),
{
    let ghost all = files.deep_view();
    let mut out: Vec<Proc> = Vec::new();
    let mut i: usize = 0;
    while i < pids.len()
        invariant
            i <= pids.len(),
            out.len() == i,
            all == files.deep_view(),
            forall|pid: u32| #[trigger] pids@.contains(pid) <==> works_in(project@, all, pid),
            forall|k: int|
                0 <= k < i ==> (#[trigger] out@[k])@ == process(all, listening@, pids@[k]),
        decreases pids.len() - i,
    {
        let pid = pids[i];
        assert(pids@.contains(pid));
        let name = find_command(files, pid);
        let kind = classify(name.as_str(), pid, listening);
        if let Some(cwd) = find_cwd(files, pid) {
            let p = Proc { pid, name, kind, cwd: cwd.copy() };
            assert(p@ =~= process(all, listening@, pid));
            out.push(p);
        }
        i = i + 1;
    }
    let ghost r = out.deep_view();
    assert forall|x: ProcView| r.contains(x) <==> works_in(project@, all, x.pid) && x == process(
        all,
        listening@,
        x.pid,
    ) by {
        if r.contains(x) {
            let k = choose|k: int| 0 <= k < r.len() && r[k] == x;
            assert(out@[k]@ == x);
            assert(pids@.contains(pids@[k]));
        }
        if works_in(project@, all, x.pid) && x == process(all, listening@, x.pid) {
            assert(pids@.contains(x.pid));
            let k = choose|k: int| 0 <= k < pids@.len() && pids@[k] == x.pid;
            assert(out@[k]@ == x);
            assert(r[k] == x);
        }
    }
    assert forall|i: int, j: int| 0 <= i < j < r.len() implies r[i].pid < r[j].pid by {
        assert(out@[i]@.pid == pids@[i]);
        assert(out@[j]@.pid == pids@[j]);
    }
    out
}

fn make_ports(project: &Project, files: &Vec<OpenFile>, listening: &Vec<(u32, u16)>) -> (r: Vec<u16>)
    ensures
        are_ports(r@, project@, files.deep_view(), listening@),
{
    let ghost all = files.deep_view();
    let mut out: Vec<u16> = Vec::new();
    let mut i: usize = 0;
    while i < listening.len()
        invariant
            i <= listening.len(),
            all == files.deep_view(),
            forall|i: int, j: int| 0 <= i < j < out@.len() ==> out@[i] < out@[j],
            forall|x: u16|
                #[trigger] out@.contains(x) <==> exists|k: int|
                    0 <= k < i && (#[trigger] listening@[k]).1 == x && works_in(
                        project@,
                        all,
                        listening@[k].0,
                    ),
        decreases listening.len() - i,
    {
        let ghost was = out@;
        let (pid, port) = listening[i];
        let ghost w = works_in(project@, all, pid);
        if is_working_in(project, files, pid) {
            insert_port(&mut out, port);
        }
        assert forall|x: u16| #[trigger] out@.contains(x) <==> exists|k: int|
            0 <= k < i + 1 && (#[trigger] listening@[k]).1 == x && works_in(
                project@,
                all,
                listening@[k].0,
            ) by {
            if was.contains(x) {
                let k = choose|k: int|
                    0 <= k < i && (#[trigger] listening@[k]).1 == x && works_in(
                        project@,
                        all,
                        listening@[k].0,
                    );
                assert(listening@[k].1 == x);
            }
            if x == port && w {
                assert(listening@[i as int].1 == x);
            }
            if exists|k: int|
                0 <= k < i + 1 && (#[trigger] listening@[k]).1 == x && works_in(
                    project@,
                    all,
                    listening@[k].0,
                ) {
                let k = choose|k: int|
                    0 <= k < i + 1 && (#[trigger] listening@[k]).1 == x && works_in(
                        project@,
                        all,
                        listening@[k].0,
                    );
                if k < i {
                    assert(was.contains(x));
                }
            }
        }
        i = i + 1;
    }
    out
}

/// The processes that work in the project, in the order of their numbers, and the ports on which
/// they listen.
pub fn processes_for(project: &Project, files: &Vec<OpenFile>, env: &ResolveEnv) -> (r: (
    Vec<Proc>,
    Vec<u16>,
))
    ensures
        are_processes(
            r.0.deep_view(),
            project@,
            files.deep_view(),
            env@.findings(ScannerId::Ports).filter_map(port_of()),
        ),
        are_ports(
            r.1@,
            project@,
            files.deep_view(),
            env@.findings(ScannerId::Ports).filter_map(port_of()),
        ),
{
    let listening = listening_ports_by_pid(env);
    let pids = working_pids(project, files);
    let procs = make_processes(&pids, project, files, &listening);
    let ports = make_ports(project, files, &listening);
    (procs, ports)
}

} // verus!
