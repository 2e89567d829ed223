//! Python: the pinned interpreter, and the caches of its package managers.

use vstd::prelude::*;

use crate::attribution::model::{
    put, Claim, ClaimView, EntryKind, EnvView, EvidenceTier, ResolveEnv,
};
use crate::attribution::projects::{Project, ProjectView};
use crate::disk::{Disk, DiskView};
use crate::fspath::{child, path_text, FilePath};
use crate::seqs::{first_some, lemma_first_some_step};
use crate::text::{cat2, cat3, lines, lines_of};

use super::common::{
    all_tagged, greatest_with, last_with_prefix, own, own_claim, place_claim, place_claims,
    real_dir_names, real_dirs, tag_all, Place,
};
use super::parsers::{identity, trimmed_pin};

verus! {

broadcast use crate::disk::group_asks;

/// A line that is not empty, without the space around it.
pub open spec fn full_line() -> spec_fn(Seq<char>) -> Option<Seq<char>> {
    |l: Seq<char>| trimmed_pin(l)
}

/// The version in the project's `.python-version`: its first line that is not empty.
pub open spec fn pinned_version(disk: DiskView, root: Seq<Seq<char>>) -> Option<Seq<char>> {
    match disk.head(child(root, ".python-version"@), 256) {
        Some(text) => first_some(lines(text), full_line()),
        None => None,
    }
}

fn python_version_pin(project: &Project, env: &ResolveEnv, disk: &mut Disk) -> (r: Option<String>)
    requires
        old(disk).wf(),
    ensures
        final(disk).asked(*old(disk)),
        final(disk).holds() ==> r.deep_view() == pinned_version(old(disk)@, project@.root),
{
    let text = match env.read_head(disk, &project.root.child(".python-version"), 256) {
        Some(t) => t,
        None => {
            return None;
        },
    };
    let l = lines_of(text.as_str());
    let ghost all = lines(text@);
    let mut i: usize = 0;
    assert(all.skip(0) =~= all);
    while i < l.len()
        invariant
            i <= l.len(),
            all == l.deep_view(),
            disk.asked(*old(disk)),
            disk.holds() ==> pinned_version(old(disk)@, project@.root) == first_some(
                all.skip(i as int),
                full_line(),
            ),
        decreases l.len() - i,
    {
        proof {
            assert(all[i as int] == l@[i as int]@);
            lemma_first_some_step(all, full_line(), i as int);
        }
        let v = identity(l[i].as_str());
        if v.is_some() {
            return v;
        }
        i = i + 1;
    }
    None
}

/// The last directory in `dir`, in the order of names, whose name begins with the prefix.
pub open spec fn last_dir(disk: DiskView, dir: Seq<Seq<char>>, prefix: Seq<char>) -> Option<
    Seq<Seq<char>>,
> {
    match greatest_with(real_dirs(disk, dir), prefix) {
        Some(n) => Some(child(dir, n)),
        None => None,
    }
}

fn prefix_match_dir(disk: &mut Disk, dir: &FilePath, prefix: &str) -> (r: Option<FilePath>)
    requires
        old(disk).wf(),
    ensures
        final(disk).asked(*old(disk)),
        final(disk).holds() ==> r.deep_view() == last_dir(old(disk)@, dir@, prefix@),
{
    let names = real_dir_names(disk, dir);
    match last_with_prefix(&names, prefix) {
        Some(n) => Some(dir.child(n.as_str())),
        None => None,
    }
}

/// The claim on an installed interpreter.
pub open spec fn interpreter_claim(
    dir: Option<Seq<Seq<char>>>,
    owner: Seq<char>,
    version: Seq<char>,
    manager: Seq<char>,
) -> Seq<ClaimView> {
    match dir {
        Some(d) => seq![
            own(
                d,
                owner,
                EntryKind::Toolchain,
                EvidenceTier::Exact,
                ".python-version pin"@,
                "Python "@ + version + manager,
            ),
        ],
        None => seq![],
    }
}

/// The claims on the interpreters that a version stands for.
pub open spec fn version_claims(
    disk: DiskView,
    home: Seq<Seq<char>>,
    owner: Seq<char>,
    version: Seq<char>,
) -> Seq<ClaimView> {
    interpreter_claim(
        last_dir(disk, child(home, ".local/share/uv/python"@), "cpython-"@ + version),
        owner,
        version,
        " (uv)"@,
    ) + interpreter_claim(
        last_dir(disk, child(home, ".pyenv/versions"@), version),
        owner,
        version,
        " (pyenv)"@,
    )
}

fn python_version_claims(env: &ResolveEnv, owner: &str, version: &str, disk: &mut Disk) -> (r: Vec<
    Claim,
>)
    requires
        old(disk).wf(),
    ensures
        final(disk).asked(*old(disk)),
        final(disk).holds()
            ==> r.deep_view() == version_claims(old(disk)@, env@.home, owner@, version@),
{
    let mut out: Vec<Claim> = Vec::new();
    let uv = env.home.child(".local/share/uv/python");
    if let Some(dir) = prefix_match_dir(disk, &uv, cat2("cpython-", version).as_str()) {
        put(
            &mut out,
            own_claim(
                dir,
                owner,
                EntryKind::Toolchain,
                EvidenceTier::Exact,
                ".python-version pin",
                cat3("Python ", version, " (uv)").as_str(),
            ),
        );
    }
    let pyenv = env.home.child(".pyenv/versions");
    if let Some(dir) = prefix_match_dir(disk, &pyenv, version) {
        put(
            &mut out,
            own_claim(
                dir,
                owner,
                EntryKind::Toolchain,
                EvidenceTier::Exact,
                ".python-version pin",
                cat3("Python ", version, " (pyenv)").as_str(),
            ),
        );
    }
    assert(disk.holds()
        ==> out.deep_view() =~= version_claims(old(disk)@, env@.home, owner@, version@));
    out
}

/// The claim on a cache that a lock file speaks for.
pub open spec fn cache_claim(
    disk: DiskView,
    project: ProjectView,
    lock: Seq<char>,
    cache: Seq<Seq<char>>,
    evidence: Seq<char>,
    label: Seq<char>,
) -> Seq<ClaimView> {
    if disk.present(child(project.root, lock)) && disk.present(cache) {
        seq![
            own(
                cache,
                path_text(project.root),
                EntryKind::PackageCache,
                EvidenceTier::EcosystemDefault,
                evidence,
                label,
            ),
        ]
    } else {
        seq![]
    }
}

fn put_cache_claim(
    project: &Project,
    lock: &str,
    cache: FilePath,
    evidence: &str,
    label: &str,
    disk: &mut Disk,
    out: &mut Vec<Claim>,
)
    requires
        old(disk).wf(),
    ensures
        final(disk).asked(*old(disk)),
        final(disk).holds() ==> final(out).deep_view() == old(out).deep_view() + cache_claim(
            old(disk)@,
            project@,
            lock@,
            cache@,
            evidence@,
            label@,
        ),
{
    let ghost was = out.deep_view();
    let ghost want = cache_claim(disk@, project@, lock@, cache@, evidence@, label@);
    if disk.present(&project.root.child(lock)) {
        if disk.present(&cache) {
            let owner = project.root.text();
            put(
                out,
                own_claim(
                    cache,
                    owner.as_str(),
                    EntryKind::PackageCache,
                    EvidenceTier::EcosystemDefault,
                    evidence,
                    label,
                ),
            );
        }
    }
    assert(disk.holds() ==> out.deep_view() =~= was + want);
}

/// The claims of a project on what belongs to Python.
pub open spec fn python_claims(p: ProjectView, env: EnvView, disk: DiskView) -> Seq<ClaimView> {
    let pinned = match pinned_version(disk, p.root) {
        Some(v) => version_claims(disk, env.home, path_text(p.root), v),
        None => seq![],
    };
    all_tagged(
        pinned + cache_claim(
            disk,
            p,
            "uv.lock"@,
            child(env.home, ".cache/uv"@),
            "uv.lock present"@,
            "uv cache"@,
        ) + cache_claim(
            disk,
            p,
            "poetry.lock"@,
            child(env.home, "Library/Caches/pypoetry"@),
            "poetry.lock present"@,
            "Poetry cache"@,
        ),
        "python"@,
    )
}

/// The claims of a project on what belongs to Python: the interpreter that its `.python-version`
/// pins, and the caches that its lock files speak for.
pub fn resolve(project: &Project, env: &ResolveEnv, disk: &mut Disk) -> (r: Vec<Claim>)
    requires
        old(disk).wf(),
    ensures
        final(disk).asked(*old(disk)),
        final(disk).holds() ==> r.deep_view() == python_claims(project@, env@, old(disk)@),
{
    let owner = project.root.text();
    let mut out: Vec<Claim> = Vec::new();
    if let Some(version) = python_version_pin(project, env, disk) {
        out = python_version_claims(env, owner.as_str(), version.as_str(), disk);
    }
    assert(disk.holds() ==> (out.deep_view() =~= (match pinned_version(old(disk)@, project@.root) {
        Some(v) => version_claims(old(disk)@, env@.home, path_text(project@.root), v),
        None => seq![],
    })));
    put_cache_claim(
        project,
        "uv.lock",
        env.home.child(".cache/uv"),
        "uv.lock present",
        "uv cache",
        disk,
        &mut out,
    );
    put_cache_claim(
        project,
        "poetry.lock",
        env.home.child("Library/Caches/pypoetry"),
        "poetry.lock present",
        "Poetry cache",
        disk,
        &mut out,
    );
    tag_all(out, "python")
}

/// Where the caches lie that all Python projects share.
pub open spec fn python_places() -> Seq<Place> {
    seq![
        Place { rel: "Library/Caches/pip", kind: EntryKind::Cache, label: "pip cache" },
        Place { rel: ".cache/pip", kind: EntryKind::Cache, label: "pip cache" },
        Place {
            rel: "Library/Application Support/virtualenv",
            kind: EntryKind::Cache,
            label: "virtualenv support",
        },
        Place { rel: ".local/pipx", kind: EntryKind::Cache, label: "pipx" },
    ]
}

/// The claims on the caches that all Python projects share.
pub fn baseline(env: &ResolveEnv, disk: &mut Disk) -> (r: Vec<Claim>)
    requires
        old(disk).wf(),
    ensures
        final(disk).asked(*old(disk)),
        final(disk).holds() ==> r.deep_view() == python_places().filter_map(
            place_claim(old(disk)@, env@.home, "python ecosystem cache"@, "python"@),
        ),
{
    let places = vec![
        Place { rel: "Library/Caches/pip", kind: EntryKind::Cache, label: "pip cache" },
        Place { rel: ".cache/pip", kind: EntryKind::Cache, label: "pip cache" },
        Place {
            rel: "Library/Application Support/virtualenv",
            kind: EntryKind::Cache,
            label: "virtualenv support",
        },
        Place { rel: ".local/pipx", kind: EntryKind::Cache, label: "pipx" },
    ];
    assert(places@ =~= python_places());
    place_claims(&places, &env.home, "python ecosystem cache", "python", disk)
}

} // verus!
