//! SwiftPM: the repositories that a project's `Package.resolved` pins, and SwiftPM's own state.

use vstd::prelude::*;

use crate::attribution::model::{
    put, Claim, ClaimView, EntryKind, EnvView, EvidenceTier, ResolveEnv,
};
use crate::attribution::paths::{node_at, node_in};
use crate::attribution::projects::{put_path, Project, ProjectView};
use crate::disk::{Disk, DiskView, NodeKind};
use crate::doc::json_document;
use crate::fspath::{child, path_text, FilePath};
use crate::scan::DirView;
use crate::seqs::{
    first_some, flat, lemma_filter_map_start, lemma_first_some_step, lemma_flat_start,
    lemma_flat_step,
};
use crate::text::{cat2, chars_of, ends, lower_text, lowered, starts, str_ends, str_starts, string_of};

use super::common::{own, own_claim, shared, shared_claim};
use super::parsers::{package_resolved, pins_in, swift_repo, swiftpm_repo_basename, ResolvedPin};

verus! {

broadcast use crate::disk::group_asks;

/// How much of a `Package.resolved` is read.
pub const MAX_RESOLVED_BYTES: usize = 524288;

/// Where SwiftPM keeps repositories.
pub open spec fn repositories_in(home: Seq<Seq<char>>) -> Seq<Seq<char>> {
    child(home, "Library/Caches/org.swift.swiftpm/repositories"@)
}

/// Where an Xcode project or workspace keeps its own `Package.resolved`.
pub open spec fn snapshot_in(root: Seq<Seq<char>>) -> spec_fn(DirView) -> Option<Seq<Seq<char>>> {
    |d: DirView|
        if ends(d.name, ".xcodeproj"@) {
            Some(
                child(
                    child(root, d.name),
                    "project.xcworkspace/xcshareddata/swiftpm/Package.resolved"@,
                ),
            )
        } else if ends(d.name, ".xcworkspace"@) {
            Some(child(child(root, d.name), "xcshareddata/swiftpm/Package.resolved"@))
        } else {
            None
        }
}

/// Where the pinned versions of a project may stand.
pub open spec fn resolved_files(root: Seq<Seq<char>>, env: EnvView) -> Seq<Seq<Seq<char>>> {
    seq![child(root, "Package.resolved"@)] + match node_in(env.trees, root) {
        Some(node) => node.children.filter_map(snapshot_in(root)),
        None => seq![],
    }
}

/// Where the pinned versions of a project may stand: in its root, and in each Xcode project and
/// workspace directly in it.
pub fn candidate_resolved_paths(project: &Project, env: &ResolveEnv) -> (r: Vec<FilePath>)
    ensures
        r.deep_view() == resolved_files(project@.root, env@),
{
    let root = &project.root;
    let mut out: Vec<FilePath> = Vec::new();
    put_path(&mut out, root.child("Package.resolved"));
    let ghost was = out.deep_view();
    assert(was =~= seq![child(root@, "Package.resolved"@)]);
    match node_at(&env.trees, root) {
        Some(node) => {
            let ghost all = node@.children;
            let ghost pick = snapshot_in(root@);
            let n = node.children.len();
            let mut i: usize = 0;
            proof {
                lemma_filter_map_start(all, pick);
                assert(out.deep_view() =~= was + all.take(0).filter_map(pick));
            }
            while i < n
                invariant
                    i <= n,
                    n == node.children.len(),
                    n == all.len(),
                    all == node@.children,
                    root == &project.root,
                    pick == snapshot_in(root@),
                    out.deep_view() == was + all.take(i as int).filter_map(pick),
                decreases n - i,
            {
                proof {
                    assert(all[i as int] == node.children@[i as int]@);
                    all.lemma_filter_map_take_succ(pick, i as int);
                }
                let name = node.children[i].name.as_str();
                if str_ends(name, ".xcodeproj") {
                    put_path(
                        &mut out,
                        root.child(name).child(
                            "project.xcworkspace/xcshareddata/swiftpm/Package.resolved",
                        ),
                    );
                } else if str_ends(name, ".xcworkspace") {
                    put_path(
                        &mut out,
                        root.child(name).child("xcshareddata/swiftpm/Package.resolved"),
                    );
                }
                assert(out.deep_view() =~= was + all.take(i + 1).filter_map(pick));
                i = i + 1;
            }
            assert(all.take(i as int) =~= all);
        },
        None => {
            assert(out.deep_view() =~= resolved_files(project@.root, env@));
        },
    }
    out
}

/// The path of an entry that is called after a repository, in capitals or small letters.
pub open spec fn repo_entry(dir: Seq<Seq<char>>, basename: Seq<char>) -> spec_fn(
    (Seq<char>, NodeKind),
) -> Option<Seq<Seq<char>>> {
    |e: (Seq<char>, NodeKind)|
        if starts(lowered(e.0), lowered(basename) + "-"@) {
            Some(child(dir, e.0))
        } else {
            None
        }
}

/// The first directory that is called after a repository.
pub open spec fn repo_dir(disk: DiskView, dir: Seq<Seq<char>>, basename: Seq<char>) -> Option<
    Seq<Seq<char>>,
> {
    match disk.list(dir) {
        Some(entries) => first_some(entries, repo_entry(dir, basename)),
        None => None,
    }
}

/// The first entry that is called after a repository: its name, a dash, and a hash.
pub fn find_repo_cache_dir(cache_root: &FilePath, basename: &str, disk: &mut Disk) -> (r: Option<FilePath>)
    requires
        old(disk).wf(),
    ensures
        final(disk).asked(*old(disk)),
        final(disk).holds() ==> r.deep_view() == repo_dir(old(disk)@, cache_root@, basename@),
{
    let low = string_of(lower_text(chars_of(basename).as_slice()).as_slice());
    let prefix = cat2(low.as_str(), "-");
    match disk.list(cache_root) {
        Some(entries) => {
            let ghost all = entries.deep_view();
            let ghost f = repo_entry(cache_root@, basename@);
            let mut i: usize = 0;
            assert(all.skip(0) =~= all);
            while i < entries.len()
                invariant
                    i <= entries.len(),
                    all == entries.deep_view(),
                    prefix@ == lowered(basename@) + "-"@,
                    f == repo_entry(cache_root@, basename@),
                    disk.holds() ==> first_some(all.skip(i as int), f) == first_some(all, f),
                    disk.holds()
                        ==> repo_dir(old(disk)@, cache_root@, basename@) == first_some(all, f),
                    disk.asked(*old(disk)),
                decreases entries.len() - i,
            {
                proof {
                    assert(all[i as int] == entries@[i as int].deep_view());
                    lemma_first_some_step(all, f, i as int);
                }
                let name = entries[i].name.as_str();
                let l = string_of(lower_text(chars_of(name).as_slice()).as_slice());
                if str_starts(l.as_str(), prefix.as_str()) {
                    return Some(cache_root.child(name));
                }
                i = i + 1;
            }
            None
        },
        None => None,
    }
}

/// A pinned dependency whose repository is kept, and where.
pub open spec fn kept_pin(disk: DiskView, dir: Seq<Seq<char>>) -> spec_fn(
    (Seq<char>, Seq<char>),
) -> Option<(Seq<char>, Seq<Seq<char>>)> {
    |pin: (Seq<char>, Seq<char>)|
        match swift_repo(pin.1) {
            Some(basename) => match repo_dir(disk, dir, basename) {
                Some(p) => Some((pin.0, p)),
                None => None,
            },
            None => None,
        }
}

/// The dependencies that a file pins and whose repositories are kept.
pub open spec fn kept_pins(disk: DiskView, dir: Seq<Seq<char>>) -> spec_fn(Seq<Seq<char>>) -> Seq<
    (Seq<char>, Seq<Seq<char>>),
> {
    |file: Seq<Seq<char>>|
        match disk.head(file, MAX_RESOLVED_BYTES) {
            Some(text) => match json_document(text) {
                Some(d) => pins_in(d),
                None => seq![],
            },
            None => seq![],
        }.filter_map(kept_pin(disk, dir))
}

/// The claims on the repositories, each once.
pub open spec fn repo_claims(p: ProjectView, kept: Seq<(Seq<char>, Seq<Seq<char>>)>) -> Seq<
    ClaimView,
>
    decreases kept.len(),
{
    if kept.len() == 0 {
        seq![]
    } else {
        let (identity, dir) = kept.last();
        let before = repo_claims(p, kept.drop_last());
        if exists|i: int| 0 <= i < kept.len() - 1 && (#[trigger] kept[i]).1 == dir {
            before
        } else {
            before.push(
                own(
                    dir,
                    path_text(p.root),
                    EntryKind::PackageCache,
                    EvidenceTier::Exact,
                    "Package.resolved"@,
                    identity,
                ).tagged("swift"@),
            )
        }
    }
}

fn put_kept(kept: &mut Vec<(String, FilePath)>, identity: String, dir: FilePath)
    ensures
        final(kept).deep_view() == old(kept).deep_view().push((identity@, dir@)),
{
    kept.push((identity, dir));
    assert(kept.deep_view() =~= old(kept).deep_view().push((identity@, dir@)));
}

fn put_kept_pins(
    file: &FilePath,
    cache_root: &FilePath,
    env: &ResolveEnv,
    disk: &mut Disk,
    out: &mut Vec<(String, FilePath)>,
)
    requires
        old(disk).wf(),
    ensures
        final(disk).asked(*old(disk)),
        final(disk).holds()
            ==> final(out).deep_view() == old(out).deep_view() + kept_pins(old(disk)@, cache_root@)(file@),
{
    let ghost facts = disk@;
    let ghost was = out.deep_view();
    let ghost pick = kept_pin(facts, cache_root@);
    let pins = match env.read_head(disk, file, MAX_RESOLVED_BYTES) {
        Some(text) => package_resolved(text.as_str()),
        None => {
            let none: Vec<ResolvedPin> = Vec::new();
            assert(none.deep_view() =~= seq![]);
            none
        },
    };
    let ghost all = pins.deep_view();
    let mut i: usize = 0;
    proof {
        lemma_filter_map_start(all, pick);
        assert(out.deep_view() =~= was + all.take(0).filter_map(pick));
    }
    let ghost start = *disk;
    while i < pins.len()
        invariant
            i <= pins.len(),
            all == pins.deep_view(),
            facts == old(disk)@,
            disk.asked(*old(disk)),
            disk.holds() ==> start.holds(),
            pick == kept_pin(facts, cache_root@),
            disk.holds() ==> out.deep_view() == was + all.take(i as int).filter_map(pick),
        decreases pins.len() - i,
    {
        proof {
            assert(all[i as int] == pins@[i as int].deep_view());
            all.lemma_filter_map_take_succ(pick, i as int);
        }
        if let Some(basename) = swiftpm_repo_basename(pins[i].location.as_str()) {
            if let Some(dir) = find_repo_cache_dir(cache_root, basename.as_str(), disk) {
                put_kept(out, pins[i].identity.clone(), dir);
            }
        }
        assert(disk.holds() ==> out.deep_view() =~= was + all.take(i + 1).filter_map(pick));
        i = i + 1;
    }
    assert(all.take(i as int) =~= all);
}

fn is_kept_before(kept: &Vec<(String, FilePath)>, n: usize) -> (r: bool)
    requires
        n < kept.len(),
    ensures
        r == exists|i: int|
            0 <= i < n && (#[trigger] kept.deep_view()[i]).1 == kept.deep_view()[n as int].1,
{
    let ghost all = kept.deep_view();
    assert(all[n as int].1 == kept@[n as int].1@);
    let mut i: usize = 0;
    while i < n
        invariant
            i <= n,
            n < kept.len(),
            all == kept.deep_view(),
            all[n as int].1 == kept@[n as int].1@,
            forall|j: int| 0 <= j < i ==> (#[trigger] all[j]).1 != all[n as int].1,
        decreases n - i,
    {
        assert(all[i as int].1 == kept@[i as int].1@);
        if kept[i].1.same(&kept[n].1) {
            return true;
        }
        i = i + 1;
    }
    false
}

fn make_repo_claims(project: &Project, kept: &Vec<(String, FilePath)>) -> (r: Vec<Claim>)
    ensures
        r.deep_view() == repo_claims(project@, kept.deep_view()),
{
    let owner = project.root.text();
    let ghost all = kept.deep_view();
    let mut out: Vec<Claim> = Vec::new();
    let mut i: usize = 0;
    assert(out.deep_view() =~= repo_claims(project@, all.take(0)));
    while i < kept.len()
        invariant
            i <= kept.len(),
            all == kept.deep_view(),
            owner@ == path_text(project@.root),
            out.deep_view() == repo_claims(project@, all.take(i as int)),
        decreases kept.len() - i,
    {
        let ghost so_far = all.take(i + 1);
        let again = is_kept_before(kept, i);
        proof {
            assert(so_far.drop_last() =~= all.take(i as int));
            assert(so_far.last() == (kept@[i as int].0@, kept@[i as int].1@));
            if again {
                let j = choose|j: int| 0 <= j < i && (#[trigger] all[j]).1 == all[i as int].1;
                assert(so_far[j] == all[j]);
            } else {
                assert forall|j: int| 0 <= j < so_far.len() - 1 implies (#[trigger] so_far[j]).1
                    != so_far.last().1 by {
                    assert(so_far[j] == all[j]);
                }
            }
        }
        if !again {
            put(
                &mut out,
                own_claim(
                    kept[i].1.copy(),
                    owner.as_str(),
                    EntryKind::PackageCache,
                    EvidenceTier::Exact,
                    "Package.resolved",
                    kept[i].0.as_str(),
                ).ecosystem("swift"),
            );
        }
        i = i + 1;
    }
    assert(all.take(i as int) =~= all);
    out
}

/// The claims of a project on the repositories that it pins.
pub open spec fn swiftpm_claims(p: ProjectView, env: EnvView, disk: DiskView) -> Seq<ClaimView> {
    repo_claims(p, flat(resolved_files(p.root, env), kept_pins(disk, repositories_in(env.home))))
}

/// The claims of a project on the repositories that it pins, each once.
pub fn resolve(project: &Project, env: &ResolveEnv, disk: &mut Disk) -> (r: Vec<Claim>)
    requires
        old(disk).wf(),
    ensures
        final(disk).asked(*old(disk)),
        final(disk).holds() ==> r.deep_view() == swiftpm_claims(project@, env@, old(disk)@),
{
    let ghost facts = disk@;
    let cache_root = env.home.child("Library/Caches/org.swift.swiftpm/repositories");
    let files = candidate_resolved_paths(project, env);
    let ghost all = files.deep_view();
    let ghost f = kept_pins(facts, cache_root@);
    let mut kept: Vec<(String, FilePath)> = Vec::new();
    let mut i: usize = 0;
    proof {
        lemma_flat_start(all, f);
        assert(kept.deep_view() =~= flat(all.take(0), f));
    }
    while i < files.len()
        invariant
            i <= files.len(),
            all == files.deep_view(),
            facts == old(disk)@,
            disk.asked(*old(disk)),
            f == kept_pins(facts, cache_root@),
            disk.holds() ==> kept.deep_view() == flat(all.take(i as int), f),
        decreases files.len() - i,
    {
        proof {
            assert(all[i as int] == files@[i as int]@);
            lemma_flat_step(all, f, i as int);
        }
        put_kept_pins(&files[i], &cache_root, env, disk, &mut kept);
        i = i + 1;
    }
    assert(all.take(i as int) =~= all);
    make_repo_claims(project, &kept)
}

/// The claims on what SwiftPM keeps for all projects.
pub open spec fn swiftpm_state(home: Seq<Seq<char>>) -> Seq<ClaimView> {
    seq![
        shared(
            child(home, "Library/Caches/org.swift.swiftpm/manifests"@),
            EntryKind::PackageCache,
            "SwiftPM manifest cache"@,
            "SwiftPM manifests"@,
            "swift"@,
        ),
        shared(
            child(home, "Library/org.swift.swiftpm"@),
            EntryKind::PackageCache,
            "SwiftPM shared state"@,
            "SwiftPM"@,
            "swift"@,
        ),
    ]
}

/// The claims on what SwiftPM keeps for all projects.
pub fn baseline(env: &ResolveEnv) -> (r: Vec<Claim>)
    ensures
        r.deep_view() == swiftpm_state(env@.home),
{
    let mut out: Vec<Claim> = Vec::new();
    put(
        &mut out,
        shared_claim(
            env.home.child("Library/Caches/org.swift.swiftpm/manifests"),
            EntryKind::PackageCache,
            "SwiftPM manifest cache",
            "SwiftPM manifests",
            "swift",
        ),
    );
    put(
        &mut out,
        shared_claim(
            env.home.child("Library/org.swift.swiftpm"),
            EntryKind::PackageCache,
            "SwiftPM shared state",
            "SwiftPM",
            "swift",
        ),
    );
    assert(out.deep_view() =~= swiftpm_state(env@.home));
    out
}

} // verus!
