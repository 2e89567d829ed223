//! Which projects there are: the repositories that were found, with their linked worktrees, and
//! the directories under the home directory that hold a manifest and lie in no repository.

use vstd::prelude::*;

use crate::attribution::model::{EnvView, ResolveEnv};
use crate::attribution::paths::{node_at, node_in};
use crate::disk::{Disk, DiskView, Listed, NodeKind};
use crate::fspath::{child, file_name, is_absolute, joined, parent, path_lt, path_of, path_text, under, FilePath};
use crate::scan::{DirNode, DirView, Finding, FindingKind, FindingView, ScannerId};
use crate::text::{chars_of, find_last, listed, lowered, lower_text, after_last, same, starts_with, string_of, trim, trimmed, starts};
use vstd::slice::slice_subrange;

use super::names::{collect, with_manifest_names};
use super::{artifact_dir, copy_paths, is_artifact_dir, put_path, put_paths, Project, ProjectIndex, ProjectView};

verus! {

broadcast use crate::disk::group_asks;

/// How deep below the home directory manifests are looked for.
pub const MAX_SWEEP_DEPTH: usize = 6;

/// How many directories are looked into for manifests.
pub const MAX_CANDIDATES: usize = 2000;

/// The name at the end of a path, or the whole path where it has none.
pub open spec fn basename(p: Seq<Seq<char>>) -> Seq<char> {
    match file_name(p) {
        Some(n) => n,
        None => path_text(p),
    }
}

fn basename_of(path: &FilePath) -> (r: String)
    ensures
        r@ == basename(path@),
{
    match path.file_name() {
        Some(n) => n.to_owned(),
        None => path.text(),
    }
}

/// The checkout that a worktree's `gitdir` file names; a relative path counts from `admin_dir`,
/// where the file lies.
pub open spec fn checkout_in(content: Seq<char>, admin_dir: Seq<Seq<char>>) -> Option<
    Seq<Seq<char>>,
> {
    if trim(content).len() == 0 {
        None
    } else {
        let named = path_of(trim(content));
        let git = if is_absolute(named) {
            named
        } else {
            joined(admin_dir, named)
        };
        if file_name(git) == Some(".git"@) {
            parent(git)
        } else {
            Some(git)
        }
    }
}

/// The checkout that a worktree's `gitdir` file names: the directory around the `.git` that
/// stands in it. A relative path counts from `admin_dir`, where the file lies.
pub fn checkout_from_gitdir(content: &str, admin_dir: &FilePath) -> (r: Option<FilePath>)
    ensures
        r.deep_view() == checkout_in(content@, admin_dir@),
{
    let c = chars_of(content);
    let t = trimmed(c.as_slice());
    if t.len() == 0 {
        return None;
    }
    let raw = string_of(t);
    let named = FilePath::from_text(raw.as_str());
    let git = if named.is_absolute() {
        named
    } else {
        admin_dir.join(&named)
    };
    let at_git = match git.file_name() {
        Some(n) => same(n, ".git"),
        None => false,
    };
    if at_git {
        git.parent()
    } else {
        Some(git)
    }
}

/// The checkout that the entry of `.git/worktrees` stands for, where it still exists.
pub open spec fn worktree_at(disk: DiskView, dir: Seq<Seq<char>>) -> spec_fn(
    (Seq<char>, NodeKind),
) -> Option<Seq<Seq<char>>> {
    |e: (Seq<char>, NodeKind)|
        if e.1 != NodeKind::Dir {
            None
        } else {
            match disk.text(child(child(dir, e.0), "gitdir"@)) {
                Some(content) => match checkout_in(content, child(dir, e.0)) {
                    Some(c) => if disk.present(c) {
                        Some(c)
                    } else {
                        None
                    },
                    None => None,
                },
                None => None,
            }
        }
}

/// The linked worktrees of a repository.
pub open spec fn worktrees_of(disk: DiskView, repo: Seq<Seq<char>>) -> Seq<Seq<Seq<char>>> {
    let dir = child(repo, ".git/worktrees"@);
    match disk.list(dir) {
        Some(entries) => entries.filter_map(worktree_at(disk, dir)),
        None => seq![],
    }
}

fn worktree_of(disk: &mut Disk, dir: &FilePath, e: &Listed) -> (r: Option<FilePath>)
    requires
        old(disk).wf(),
    ensures
        final(disk).asked(*old(disk)),
        final(disk).holds() ==> r.deep_view() == worktree_at(old(disk)@, dir@)(e.deep_view()),
{
    if e.kind != NodeKind::Dir {
        return None;
    }
    let admin_dir = dir.child(e.name.as_str());
    match disk.text(&admin_dir.child("gitdir")) {
        Some(content) => match checkout_from_gitdir(content.as_str(), &admin_dir) {
            Some(c) => if disk.present(&c) {
                Some(c)
            } else {
                None
            },
            None => None,
        },
        None => None,
    }
}

fn linked_worktrees(disk: &mut Disk, repo: &FilePath) -> (r: Vec<FilePath>)
    requires
        old(disk).wf(),
    ensures
        final(disk).asked(*old(disk)),
        final(disk).holds() ==> r.deep_view() == worktrees_of(old(disk)@, repo@),
{
    let ghost facts = disk@;
    let dir = repo.child(".git/worktrees");
    let ghost pick = worktree_at(facts, dir@);
    let mut out: Vec<FilePath> = Vec::new();
    match disk.list(&dir) {
        Some(entries) => {
            let ghost all = entries.deep_view();
            let mut i: usize = 0;
            proof {
                assert(all.take(0) =~= seq![]);
                reveal(Seq::filter_map);
                assert(out.deep_view() =~= all.take(0).filter_map(pick));
            }
            let ghost start = *disk;
            while i < entries.len()
                invariant
                    i <= entries.len(),
                    all == entries.deep_view(),
                    facts == old(disk)@,
                    pick == worktree_at(facts, dir@),
                    disk.asked(*old(disk)),
                    disk.holds() ==> start.holds(),
                    disk.holds() ==> out.deep_view() == all.take(i as int).filter_map(pick),
                decreases entries.len() - i,
            {
                proof {
                    all.lemma_filter_map_take_succ(pick, i as int);
                }
                if let Some(c) = worktree_of(disk, &dir, &entries[i]) {
                    put_path(&mut out, c);
                }
                assert(disk.holds() ==> out.deep_view() =~= all.take(i + 1).filter_map(pick));
                i = i + 1;
            }
            assert(all.take(i as int) =~= all);
            out
        },
        None => {
            assert(out.deep_view() =~= seq![]);
            out
        },
    }
}

/// A project that is known by its directory alone.
pub open spec fn bare_project(
    at: Seq<Seq<char>>,
    worktrees: Seq<Seq<Seq<char>>>,
    is_git: bool,
) -> ProjectView {
    ProjectView {
        root: at,
        name: basename(at),
        worktrees,
        names: seq![basename(at)],
        bundle_ids: seq![],
        is_git,
    }
}

fn make_project(at: &FilePath, worktrees: Vec<FilePath>, is_git: bool) -> (r: Project)
    ensures
        r@ == bare_project(at@, worktrees.deep_view(), is_git),
{
    let name = basename_of(at);
    let mut names: Vec<String> = Vec::new();
    names.push(name.clone());
    let bundle_ids: Vec<String> = Vec::new();
    assert(names.deep_view() =~= seq![basename(at@)]);
    assert(bundle_ids.deep_view() =~= seq![]);
    Project { root: at.copy(), name, worktrees, names, bundle_ids, is_git }
}

/// The project that a finding of the Git section stands for.
pub open spec fn git_project(disk: DiskView) -> spec_fn(FindingView) -> Option<ProjectView> {
    |f: FindingView|
        if f.kind == FindingKind::GitRepo && f.path is Some {
            Some(bare_project(f.path->0, worktrees_of(disk, f.path->0), true))
        } else {
            None
        }
}

fn git_projects(env: &ResolveEnv, disk: &mut Disk) -> (r: Vec<Project>)
    requires
        old(disk).wf(),
    ensures
        final(disk).asked(*old(disk)),
        final(disk).holds()
            ==> r.deep_view() == env@.findings(ScannerId::Git).filter_map(git_project(old(disk)@)),
{
    let ghost facts = disk@;
    let ghost pick = git_project(facts);
    let findings = env.findings(ScannerId::Git);
    let ghost all = findings.deep_view();
    let mut out: Vec<Project> = Vec::new();
    let mut i: usize = 0;
    proof {
        assert(all.take(0) =~= seq![]);
        reveal(Seq::filter_map);
        assert(out.deep_view() =~= all.take(0).filter_map(pick));
    }
    while i < findings.len()
        invariant
            i <= findings.len(),
            all == findings.deep_view(),
            facts == old(disk)@,
            pick == git_project(facts),
            disk.asked(*old(disk)),
            disk.holds() ==> out.deep_view() == all.take(i as int).filter_map(pick),
        decreases findings.len() - i,
    {
        proof {
            all.lemma_filter_map_take_succ(pick, i as int);
        }
        let f: &Finding = &findings[i];
        assert(all[i as int] == f@);
        if f.kind == FindingKind::GitRepo {
            if let Some(root) = &f.path {
                let ghost was = out.deep_view();
                let worktrees = linked_worktrees(disk, root);
                let p = make_project(root, worktrees, true);
                out.push(p);
                assert(out.deep_view() =~= was.push(p@));
            }
        }
        assert(disk.holds() ==> out.deep_view() =~= all.take(i + 1).filter_map(pick));
        i = i + 1;
    }
    assert(all.take(i as int) =~= all);
    out
}

/// The extensions of directories that the system shows as one thing.
pub open spec fn package_extension(e: Seq<char>) -> bool {
    ||| e == "app"@
    ||| e == "appex"@
    ||| e == "framework"@
    ||| e == "bundle"@
    ||| e == "plugin"@
    ||| e == "kext"@
    ||| e == "xpc"@
    ||| e == "prefpane"@
    ||| e == "qlgenerator"@
    ||| e == "mdimporter"@
    ||| e == "saver"@
    ||| e == "xcodeproj"@
    ||| e == "xcworkspace"@
    ||| e == "playground"@
    ||| e == "docset"@
    ||| e == "dsym"@
    ||| e == "pkg"@
    ||| e == "mpkg"@
}

/// Whether a directory of this name is shown as one thing; the case of the extension does not
/// matter.
pub open spec fn package_dir(name: Seq<char>) -> bool {
    after_last(name, '.') > 0 && package_extension(
        lowered(name.skip(after_last(name, '.') as int)),
    )
}

/// Whether a directory of this name is shown as one thing, and so holds no project of its own.
pub fn is_package_dir(name: &str) -> (r: bool)
    ensures
        r == package_dir(name@),
{
    let c = chars_of(name);
    let k = find_last(c.as_slice(), '.');
    if k == 0 {
        return false;
    }
    let tail = slice_subrange(c.as_slice(), k, c.len());
    assert(tail@ =~= name@.skip(k as int));
    let l = lower_text(tail);
    let e = string_of(l.as_slice());
    same(e.as_str(), "app") || same(e.as_str(), "appex") || same(e.as_str(), "framework") || same(
        e.as_str(),
        "bundle",
    ) || same(e.as_str(), "plugin") || same(e.as_str(), "kext") || same(e.as_str(), "xpc") || same(
        e.as_str(),
        "prefpane",
    ) || same(e.as_str(), "qlgenerator") || same(e.as_str(), "mdimporter") || same(
        e.as_str(),
        "saver",
    ) || same(e.as_str(), "xcodeproj") || same(e.as_str(), "xcworkspace") || same(
        e.as_str(),
        "playground",
    ) || same(e.as_str(), "docset") || same(e.as_str(), "dsym") || same(e.as_str(), "pkg") || same(
        e.as_str(),
        "mpkg",
    )
}

/// Whether a directory of this name is looked into for manifests.
pub open spec fn swept(skip_dirs: Seq<Seq<char>>, name: Seq<char>) -> bool {
    &&& !starts(name, "."@)
    &&& name != "Library"@
    &&& !skip_dirs.contains(name)
    &&& !artifact_dir(name)
    &&& !package_dir(name)
}

/// Whether a directory of this name is looked into for manifests.
pub fn is_swept(env: &ResolveEnv, name: &str) -> (r: bool)
    ensures
        r == swept(env@.skip_dirs, name@),
{
    let c = chars_of(name);
    !starts_with(c.as_slice(), ".") && !same(name, "Library") && !listed(&env.skip_dirs, name)
        && !is_artifact_dir(name) && !is_package_dir(name)
}

/// Whether one of the entries is a manifest.
pub open spec fn has_marker(markers: Seq<Seq<char>>, entries: Seq<(Seq<char>, NodeKind)>) -> bool {
    exists|i: int|
        0 <= i < entries.len() && (#[trigger] entries[i]).1 != NodeKind::Dir && markers.contains(
            entries[i].0,
        )
}

fn holds_marker(markers: &Vec<String>, entries: &Vec<Listed>) -> (r: bool)
    ensures
        r == has_marker(markers.deep_view(), entries.deep_view()),
{
    let ghost all = entries.deep_view();
    let mut i: usize = 0;
    while i < entries.len()
        invariant
            i <= entries.len(),
            all == entries.deep_view(),
            forall|j: int|
                0 <= j < i ==> !((#[trigger] all[j]).1 != NodeKind::Dir
                    && markers.deep_view().contains(all[j].0)),
        decreases entries.len() - i,
    {
        assert(all[i as int] == entries@[i as int].deep_view());
        if entries[i].kind != NodeKind::Dir && listed(markers, entries[i].name.as_str()) {
            return true;
        }
        i = i + 1;
    }
    false
}

/// Whether `p` lies in one of the directories.
pub open spec fn inside_any(p: Seq<Seq<char>>, dirs: Seq<Seq<Seq<char>>>) -> bool {
    exists|i: int| 0 <= i < dirs.len() && under(p, #[trigger] dirs[i])
}

fn is_inside(p: &FilePath, dirs: &Vec<FilePath>) -> (r: bool)
    ensures
        r == inside_any(p@, dirs.deep_view()),
{
    let ghost all = dirs.deep_view();
    let mut i: usize = 0;
    while i < dirs.len()
        invariant
            i <= dirs.len(),
            all == dirs.deep_view(),
            forall|j: int| 0 <= j < i ==> !under(p@, #[trigger] all[j]),
        decreases dirs.len() - i,
    {
        assert(all[i as int] == dirs@[i as int]@);
        if p.under(&dirs[i]) {
            return true;
        }
        i = i + 1;
    }
    false
}

/// A directory that waits to be looked into, with its depth below the home directory.
#[verifier::ext_equal]
pub struct Waiting {
    pub path: Seq<Seq<char>>,
    pub node: DirView,
    pub depth: nat,
}

/// The directories in `at` that are looked into.
pub open spec fn waiting_children(
    skip_dirs: Seq<Seq<char>>,
    at: Seq<Seq<char>>,
    depth: nat,
) -> spec_fn(DirView) -> Option<Waiting> {
    |d: DirView|
        if swept(skip_dirs, d.name) {
            Some(Waiting { path: child(at, d.name), node: d, depth: depth + 1 })
        } else {
            None
        }
}

/// The projects that a sweep finds: it takes the directory that came last, gives up what lies in a
/// directory of `exclude`, stops at a manifest, and else puts the directory's own directories
/// behind what waits. It looks into no more directories than `MAX_CANDIDATES`.
pub open spec fn sweep(
    env: EnvView,
    disk: DiskView,
    exclude: Seq<Seq<Seq<char>>>,
    waiting: Seq<Waiting>,
    checked: nat,
) -> Seq<ProjectView>
    decreases MAX_CANDIDATES - checked, waiting.len(),
{
    if waiting.len() == 0 || checked >= MAX_CANDIDATES {
        seq![]
    } else {
        let w = waiting.last();
        let rest = waiting.drop_last();
        if inside_any(w.path, exclude) {
            sweep(env, disk, exclude, rest, checked)
        } else if disk.list(w.path) is Some && has_marker(
            env.project_markers,
            disk.list(w.path)->0,
        ) {
            seq![bare_project(w.path, seq![], false)] + sweep(
                env,
                disk,
                exclude,
                rest,
                checked + 1,
            )
        } else if w.depth >= MAX_SWEEP_DEPTH {
            sweep(env, disk, exclude, rest, checked + 1)
        } else {
            sweep(
                env,
                disk,
                exclude,
                rest + w.node.children.filter_map(
                    waiting_children(env.skip_dirs, w.path, w.depth),
                ),
                checked + 1,
            )
        }
    }
}

/// The projects that have a manifest and lie in no repository.
pub open spec fn manifest_projects_in(
    env: EnvView,
    disk: DiskView,
    exclude: Seq<Seq<Seq<char>>>,
) -> Seq<ProjectView> {
    match node_in(env.trees, env.home) {
        Some(node) => sweep(
            env,
            disk,
            exclude,
            seq![Waiting { path: env.home, node, depth: 0 }],
            0,
        ),
        None => seq![],
    }
}

/// A directory that waits to be looked into.
pub struct Pending<'t> {
    pub path: FilePath,
    pub node: &'t DirNode,
    pub depth: usize,
}

impl<'t> DeepView for Pending<'t> {
    type V = Waiting;

    open spec fn deep_view(&self) -> Waiting {
        Waiting { path: self.path@, node: self.node@, depth: self.depth as nat }
    }
}

fn put_children<'t>(
    env: &ResolveEnv,
    path: &FilePath,
    node: &'t DirNode,
    depth: usize,
    stack: &mut Vec<Pending<'t>>,
)
    requires
        depth < MAX_SWEEP_DEPTH,
    ensures
        final(stack).deep_view() == old(stack).deep_view() + node@.children.filter_map(
            waiting_children(env@.skip_dirs, path@, depth as nat),
        ),
{
    let ghost was = stack.deep_view();
    let ghost all = node@.children;
    let ghost pick = waiting_children(env@.skip_dirs, path@, depth as nat);
    let mut i: usize = 0;
    proof {
        assert(all.take(0) =~= seq![]);
        reveal(Seq::filter_map);
        assert(stack.deep_view() =~= was + all.take(0).filter_map(pick));
    }
    while i < node.children.len()
        invariant
            i <= node.children.len(),
            depth < MAX_SWEEP_DEPTH,
            all == node@.children,
            pick == waiting_children(env@.skip_dirs, path@, depth as nat),
            stack.deep_view() == was + all.take(i as int).filter_map(pick),
        decreases node.children.len() - i,
    {
        let d = &node.children[i];
        proof {
            assert(all[i as int] == d@);
            all.lemma_filter_map_take_succ(pick, i as int);
        }
        let ghost before = stack.deep_view();
        if is_swept(env, d.name.as_str()) {
            let w = Pending { path: path.child(d.name.as_str()), node: d, depth: depth + 1 };
            stack.push(w);
            assert(stack.deep_view() =~= before.push(w.deep_view()));
        }
        assert(stack.deep_view() =~= was + all.take(i + 1).filter_map(pick));
        i = i + 1;
    }
    assert(all.take(i as int) =~= all);
}

fn manifest_projects(env: &ResolveEnv, disk: &mut Disk, exclude: &Vec<FilePath>) -> (r: Vec<
    Project,
>)
    requires
        old(disk).wf(),
    ensures
        final(disk).asked(*old(disk)),
        final(disk).holds()
            ==> r.deep_view() == manifest_projects_in(env@, old(disk)@, exclude.deep_view()),
{
    let ghost facts = disk@;
    let mut out: Vec<Project> = Vec::new();
    let top = match node_at(&env.trees, &env.home) {
        Some(n) => n,
        None => {
            assert(out.deep_view() =~= seq![]);
            return out;
        },
    };
    let mut stack: Vec<Pending> = Vec::new();
    stack.push(Pending { path: env.home.copy(), node: top, depth: 0 });
    let mut checked: usize = 0;
    let ghost want = manifest_projects_in(env@, facts, exclude.deep_view());
    proof {
        assert(stack.deep_view() =~= seq![
            Waiting { path: env@.home, node: top@, depth: 0 },
        ]);
        assert(out.deep_view() + want =~= want);
    }
    loop
        invariant
            checked <= MAX_CANDIDATES,
            facts == old(disk)@,
            disk.asked(*old(disk)),
            disk.holds() ==> out.deep_view() + sweep(
                env@,
                facts,
                exclude.deep_view(),
                stack.deep_view(),
                checked as nat,
            ) == want,
        ensures
            disk.asked(*old(disk)),
            disk.holds() ==> out.deep_view() == want,
        decreases MAX_CANDIDATES - checked, stack.len(),
    {
        let ghost was = out.deep_view();
        let ghost waiting = stack.deep_view();
        if checked >= MAX_CANDIDATES {
            assert(was + seq![] =~= was);
            break;
        }
        let w = match stack.pop() {
            Some(w) => w,
            None => {
                assert(was + seq![] =~= was);
                break;
            },
        };
        proof {
            assert(waiting.last() == w.deep_view());
            assert(waiting.drop_last() =~= stack.deep_view());
        }
        if is_inside(&w.path, exclude) {
            continue;
        }
        checked = checked + 1;
        let marked = match disk.list(&w.path) {
            Some(entries) => holds_marker(&env.project_markers, &entries),
            None => false,
        };
        if marked {
            let none: Vec<FilePath> = Vec::new();
            assert(none.deep_view() =~= seq![]);
            let p = make_project(&w.path, none, false);
            out.push(p);
            proof {
                assert(out.deep_view() =~= was.push(p@));
                let rest = sweep(
                    env@,
                    facts,
                    exclude.deep_view(),
                    stack.deep_view(),
                    checked as nat,
                );
                assert(out.deep_view() + rest =~= was + (seq![p@] + rest));
            }
            continue;
        }
        if w.depth >= MAX_SWEEP_DEPTH {
            continue;
        }
        put_children(env, &w.path, w.node, w.depth, &mut stack);
    }
    out
}

/// The roots and the other checkouts of the projects.
pub open spec fn checkouts(projects: Seq<ProjectView>) -> Seq<Seq<Seq<char>>>
    decreases projects.len(),
{
    if projects.len() == 0 {
        seq![]
    } else {
        checkouts(projects.drop_last()) + (seq![projects.last().root] + projects.last().worktrees)
    }
}

fn all_checkouts(projects: &Vec<Project>) -> (r: Vec<FilePath>)
    ensures
        r.deep_view() == checkouts(projects.deep_view()),
{
    let ghost all = projects.deep_view();
    let mut out: Vec<FilePath> = Vec::new();
    let mut i: usize = 0;
    assert(out.deep_view() =~= checkouts(all.take(0)));
    while i < projects.len()
        invariant
            i <= projects.len(),
            all == projects.deep_view(),
            out.deep_view() == checkouts(all.take(i as int)),
        decreases projects.len() - i,
    {
        let p = &projects[i];
        proof {
            assert(all.take(i + 1).drop_last() =~= all.take(i as int));
            assert(all.take(i + 1).last() == p@);
        }
        let ghost was = out.deep_view();
        put_path(&mut out, p.root.copy());
        put_paths(&mut out, copy_paths(&p.worktrees));
        assert(out.deep_view() =~= was + (seq![p@.root] + p@.worktrees));
        i = i + 1;
    }
    assert(all.take(i as int) =~= all);
    out
}

/// How many of the projects stand before a project with this root.
pub open spec fn root_place(s: Seq<ProjectView>, root: Seq<Seq<char>>) -> int
    decreases s.len(),
{
    if s.len() == 0 || !path_lt(root, s.last().root) {
        s.len() as int
    } else {
        root_place(s.drop_last(), root)
    }
}

/// The projects in the order of their roots; those with the same root stay in the order in which
/// they came.
pub open spec fn by_root(s: Seq<ProjectView>) -> Seq<ProjectView>
    decreases s.len(),
{
    if s.len() == 0 {
        seq![]
    } else {
        let front = by_root(s.drop_last());
        front.insert(root_place(front, s.last().root), s.last())
    }
}

/// Every project with what its manifests say of it.
pub open spec fn described(env: EnvView, disk: DiskView, s: Seq<ProjectView>) -> Seq<ProjectView> {
    Seq::new(s.len(), |i: int| with_manifest_names(env, disk, s[i]))
}

/// The repositories, then the directories with a manifest that lie in none of them.
pub open spec fn found_projects(env: EnvView, disk: DiskView) -> Seq<ProjectView> {
    let git = env.findings(ScannerId::Git).filter_map(git_project(disk));
    git + manifest_projects_in(env, disk, checkouts(git))
}

/// All projects.
pub open spec fn projects_in(env: EnvView, disk: DiskView) -> Seq<ProjectView> {
    by_root(described(env, disk, found_projects(env, disk)))
}

fn insert_project(list: &mut Vec<Project>, p: Project)
    requires
        old(list).len() < usize::MAX,
    ensures
        final(list).deep_view() == old(list).deep_view().insert(
            root_place(old(list).deep_view(), p@.root),
            p@,
        ),
        final(list).len() == old(list).len() + 1,
{
    let ghost s = list.deep_view();
    let mut n: usize = list.len();
    assert(s.take(n as int) =~= s);
    while n > 0 && p.root.before(&list[n - 1].root)
        invariant
            n <= list.len(),
            s == list.deep_view(),
            root_place(s, p@.root) == root_place(s.take(n as int), p@.root),
        decreases n,
    {
        proof {
            assert(s.take(n as int).last() == list@[n - 1]@);
            assert(s.take(n as int).drop_last() =~= s.take(n - 1));
        }
        n = n - 1;
    }
    proof {
        if n > 0 {
            assert(s.take(n as int).last() == list@[n - 1]@);
        }
        assert(root_place(s, p@.root) == n);
    }
    list.insert(n, p);
    assert(list.deep_view() =~= s.insert(n as int, p@));
}

/// The projects are the repositories of the Git section and the directories with a manifest, in
/// the order of their roots.
pub fn discover(env: &ResolveEnv, disk: &mut Disk) -> (r: ProjectIndex)
    requires
        old(disk).wf(),
    ensures
        final(disk).asked(*old(disk)),
        final(disk).holds() ==> r@ == projects_in(env@, old(disk)@),
{
    let ghost facts = disk@;
    let mut projects = git_projects(env, disk);
    let exclude = all_checkouts(&projects);
    let mut more = manifest_projects(env, disk, &exclude);
    let ghost g = projects.deep_view();
    let ghost m = more.deep_view();
    projects.append(&mut more);
    let ghost all = projects.deep_view();
    let ghost start = *disk;
    assert(disk.holds() ==> all == found_projects(env@, facts)) by {
        assert(all =~= g + m);
    }
    let ghost want = described(env@, facts, all);
    let mut sorted: Vec<Project> = Vec::new();
    let mut rest = projects;
    let mut i: usize = 0;
    let ghost n = all.len();
    assert(n == rest.len()) by {
        assert(rest.deep_view().len() == rest.len());
    }
    proof {
        assert(sorted.deep_view() =~= by_root(want.take(0)));
        assert(rest.deep_view() =~= all.skip(0));
    }
    while rest.len() > 0
        invariant
            i + rest.len() == n,
            i == sorted.len(),
            n == all.len(),
            facts == old(disk)@,
            want == described(env@, facts, all),
            disk.asked(*old(disk)),
            disk.holds() ==> start.holds(),
            rest.deep_view() == all.skip(i as int),
            disk.holds() ==> sorted.deep_view() == by_root(want.take(i as int)),
            n <= usize::MAX,
        decreases rest.len(),
    {
        let ghost before = rest.deep_view();
        let ghost items = rest@;
        let mut p = rest.remove(0);
        proof {
            assert(p@ == before[0]);
            assert(rest@ == items.remove(0));
            assert(rest.deep_view() =~= before.skip(1));
            assert(before[0] == all[i as int]);
            assert(rest.deep_view() =~= all.skip(i + 1));
        }
        collect(&mut p, env, disk);
        proof {
            assert(disk.holds() ==> p@ == want[i as int]);
            assert(disk.holds() ==> want.take(i + 1).drop_last() =~= want.take(i as int));
            assert(disk.holds() ==> want.take(i + 1).last() == p@);
        }
        insert_project(&mut sorted, p);
        i = i + 1;
    }
    assert(want.take(i as int) =~= want);
    ProjectIndex::new(sorted)
}

} // verus!
