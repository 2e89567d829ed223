//! What holds of the projects that are found: which directories are projects, and which are not.

use vstd::prelude::*;

use crate::attribution::model::EnvView;
use crate::attribution::paths::node_in;
use crate::disk::{DiskView, NodeKind};
use crate::fspath::{
    child, dot, joined, lemma_path_lt_asymmetric, lemma_path_lt_total, lemma_path_lt_transitive,
    path_lt, path_of, root, under,
};
use crate::scan::{DirView, FindingKind, ScannerId};
use crate::seqs::{lemma_picked, lemma_picked_from};
use crate::text::{after_last, lowered, split, starts};
use crate::text_laws::{free_of, law_first_piece};

use super::discovery::{
    bare_project, by_root, checkouts, described, found_projects, git_project, has_marker,
    inside_any, manifest_projects_in, package_dir, projects_in, root_place, sweep, swept,
    waiting_children, worktree_at, worktrees_of, Waiting,
};
use super::names::with_manifest_names;
use super::{artifact_dir, ProjectView};

verus! {

/// Whether a directory holds a file that makes it a project.
pub open spec fn has_manifest(env: EnvView, disk: DiskView, at: Seq<Seq<char>>) -> bool {
    disk.list(at) is Some && exists|i: int|
        0 <= i < disk.list(at)->0.len() && (#[trigger] disk.list(at)->0[i]).1 != NodeKind::Dir
            && env.project_markers.contains(disk.list(at)->0[i].0)
}

/// Whether a path lies in a checkout of one of the projects that are repositories.
pub open spec fn in_repository(r: Seq<ProjectView>, at: Seq<Seq<char>>) -> bool {
    exists|j: int|
        0 <= j < r.len() && (#[trigger] r[j]).is_git && (r[j].root.is_prefix_of(at) || exists|k: int|
            0 <= k < r[j].worktrees.len() && (#[trigger] r[j].worktrees[k]).is_prefix_of(at))
}

/// The extensions of what the system shows as one thing.
pub open spec fn package_extensions() -> Seq<Seq<char>> {
    seq![
        "app"@,
        "appex"@,
        "framework"@,
        "bundle"@,
        "plugin"@,
        "kext"@,
        "xpc"@,
        "prefpane"@,
        "qlgenerator"@,
        "mdimporter"@,
        "saver"@,
        "xcodeproj"@,
        "xcworkspace"@,
        "playground"@,
        "docset"@,
        "dsym"@,
        "pkg"@,
        "mpkg"@,
    ]
}

/// The names of directories of build output and of copied dependencies.
pub open spec fn output_names() -> Seq<Seq<char>> {
    seq![
        "node_modules"@,
        "target"@,
        ".venv"@,
        "venv"@,
        "build"@,
        "dist"@,
        "Pods"@,
        "__pycache__"@,
    ]
}

/// Whether the last dot of a name stands at `i`, and the extension behind it is that of a package.
pub open spec fn package_dot(name: Seq<char>, i: int) -> bool {
    0 <= i < name.len() && name[i] == '.' && free_of(name.skip(i + 1), '.')
        && package_extensions().contains(lowered(name.skip(i + 1)))
}

/// Whether directories of this name are looked into.
pub open spec fn open_name(env: EnvView, name: Seq<char>) -> bool {
    &&& !(name.len() > 0 && name[0] == '.')
    &&& name != "Library"@
    &&& !env.skip_dirs.contains(name)
    &&& !output_names().contains(name)
    &&& forall|i: int| !(#[trigger] package_dot(name, i))
}

/// Whether a name is that of one thing in a directory.
pub open spec fn single_name(name: Seq<char>) -> bool {
    name.len() > 0 && free_of(name, '/') && name != seq!['.']
}

proof fn lemma_after_last(s: Seq<char>, c: char)
    ensures
        after_last(s, c) <= s.len(),
        after_last(s, c) > 0 ==> s[after_last(s, c) - 1] == c,
        forall|j: int| after_last(s, c) <= j < s.len() ==> #[trigger] s[j] != c,
    decreases s.len(),
{
    if s.len() > 0 && s.last() != c {
        let t = s.drop_last();
        lemma_after_last(t, c);
        assert forall|j: int| after_last(s, c) <= j < s.len() implies #[trigger] s[j] != c by {
            if j < t.len() {
                assert(t[j] == s[j]);
            }
        }
    }
}

proof fn lemma_package_dir(name: Seq<char>)
    ensures
        package_dir(name) <==> exists|i: int| #[trigger] package_dot(name, i),
{
    lemma_after_last(name, '.');
    let k = after_last(name, '.') as int;
    let x = package_extensions();
    assert(forall|e: Seq<char>| x.contains(e) <==> super::discovery::package_extension(e)) by {
        assert forall|e: Seq<char>| x.contains(e) <==> super::discovery::package_extension(e) by {
            assert(x[0] == "app"@ && x[1] == "appex"@ && x[2] == "framework"@ && x[3] == "bundle"@);
            assert(x[4] == "plugin"@ && x[5] == "kext"@ && x[6] == "xpc"@ && x[7] == "prefpane"@);
            assert(x[8] == "qlgenerator"@ && x[9] == "mdimporter"@ && x[10] == "saver"@);
            assert(x[11] == "xcodeproj"@ && x[12] == "xcworkspace"@ && x[13] == "playground"@);
            assert(x[14] == "docset"@ && x[15] == "dsym"@ && x[16] == "pkg"@ && x[17] == "mpkg"@);
        }
    }
    if package_dir(name) {
        let t = name.skip(k);
        assert(free_of(t, '.')) by {
            assert forall|j: int| 0 <= j < t.len() implies #[trigger] t[j] != '.' by {
                assert(t[j] == name[k + j]);
            }
        }
        assert(package_dot(name, k - 1));
    }
    if exists|i: int| #[trigger] package_dot(name, i) {
        let i = choose|i: int| #[trigger] package_dot(name, i);
        if k == 0 {
            assert(name[i] != '.');
        } else if i + 1 < k {
            assert(name.skip(i + 1)[k - 1 - (i + 1)] == name[k - 1]);
        } else if i + 1 > k {
            assert(name[i] != '.');
        }
        assert(i + 1 == k);
    }
}

proof fn lemma_open_name(env: EnvView, name: Seq<char>)
    ensures
        open_name(env, name) <==> swept(env.skip_dirs, name),
{
    lemma_package_dir(name);
    reveal_strlit(".");
    if name.len() > 0 {
        assert(name.take(1)[0] == name[0]);
        if name[0] == '.' {
            assert(name.take(1) =~= "."@);
        }
        if starts(name, "."@) {
            assert(name.take(1)[0] == "."@[0]);
        }
    }
    let x = output_names();
    assert(x.contains(name) <==> artifact_dir(name)) by {
        assert(x[0] == "node_modules"@ && x[1] == "target"@ && x[2] == ".venv"@ && x[3] == "venv"@);
        assert(x[4] == "build"@ && x[5] == "dist"@ && x[6] == "Pods"@ && x[7] == "__pycache__"@);
    }
}

proof fn lemma_manifest(env: EnvView, disk: DiskView, at: Seq<Seq<char>>)
    ensures
        has_manifest(env, disk, at) <==> (disk.list(at) is Some && has_marker(
            env.project_markers,
            disk.list(at)->0,
        )),
{
    if has_manifest(env, disk, at) {
        let l = disk.list(at)->0;
        let i = choose|i: int|
            0 <= i < l.len() && (#[trigger] l[i]).1 != NodeKind::Dir
                && env.project_markers.contains(l[i].0);
        assert(l[i].1 != NodeKind::Dir);
    }
}

/// The path that a chain of directories leads to, the first of which is at `at`.
pub open spec fn way(at: Seq<Seq<char>>, chain: Seq<DirView>) -> Seq<Seq<char>>
    decreases chain.len(),
{
    if chain.len() <= 1 {
        at
    } else {
        way(child(at, chain[1].name), chain.skip(1))
    }
}

/// Whether a chain of directories, each in the one before, leads from `at` to the first directory on
/// the way that holds a manifest, by names that are looked into and outside every repository.
pub open spec fn leads_to_manifest(
    env: EnvView,
    disk: DiskView,
    r: Seq<ProjectView>,
    at: Seq<Seq<char>>,
    chain: Seq<DirView>,
) -> bool
    decreases chain.len(),
{
    chain.len() > 0 && !in_repository(r, at) && if chain.len() == 1 {
        has_manifest(env, disk, at)
    } else {
        &&& !has_manifest(env, disk, at)
        &&& chain[0].children.contains(chain[1])
        &&& open_name(env, chain[1].name)
        &&& leads_to_manifest(env, disk, r, child(at, chain[1].name), chain.skip(1))
    }
}

/// How many directories are looked into from `at` on, which lies `depth` levels down: none in a
/// repository, and nothing below a manifest or below the sixth level.
pub open spec fn looked_into(
    env: EnvView,
    disk: DiskView,
    r: Seq<ProjectView>,
    at: Seq<Seq<char>>,
    d: DirView,
    depth: nat,
) -> nat
    decreases 6 - depth, 1nat, 0nat,
{
    if in_repository(r, at) {
        0
    } else if has_manifest(env, disk, at) || depth >= 6 {
        1
    } else {
        1 + looked_into_all(env, disk, r, at, d.children, depth)
    }
}

/// How many directories are looked into in some directories of `at`.
pub open spec fn looked_into_all(
    env: EnvView,
    disk: DiskView,
    r: Seq<ProjectView>,
    at: Seq<Seq<char>>,
    ds: Seq<DirView>,
    depth: nat,
) -> nat
    decreases 6 - depth, 0nat, ds.len(),
{
    if ds.len() == 0 || depth >= 6 {
        0
    } else {
        looked_into_all(env, disk, r, at, ds.drop_last(), depth) + if open_name(
            env,
            ds.last().name,
        ) {
            looked_into(env, disk, r, child(at, ds.last().name), ds.last(), depth + 1)
        } else {
            0
        }
    }
}

spec fn weights(env: EnvView, disk: DiskView, r: Seq<ProjectView>, w: Seq<Waiting>) -> nat
    decreases w.len(),
{
    if w.len() == 0 {
        0
    } else {
        weights(env, disk, r, w.drop_last()) + looked_into(
            env,
            disk,
            r,
            w.last().path,
            w.last().node,
            w.last().depth,
        )
    }
}

proof fn lemma_weights_add(
    env: EnvView,
    disk: DiskView,
    r: Seq<ProjectView>,
    a: Seq<Waiting>,
    b: Seq<Waiting>,
)
    ensures
        weights(env, disk, r, a + b) == weights(env, disk, r, a) + weights(env, disk, r, b),
    decreases b.len(),
{
    if b.len() == 0 {
        assert(a + b =~= a);
    } else {
        assert((a + b).drop_last() =~= a + b.drop_last());
        assert((a + b).last() == b.last());
        lemma_weights_add(env, disk, r, a, b.drop_last());
    }
}

proof fn lemma_weight_of_one(
    env: EnvView,
    disk: DiskView,
    r: Seq<ProjectView>,
    w: Seq<Waiting>,
    i: int,
)
    requires
        0 <= i < w.len(),
    ensures
        looked_into(env, disk, r, w[i].path, w[i].node, w[i].depth) <= weights(env, disk, r, w),
    decreases w.len(),
{
    if i < w.len() - 1 {
        assert(w.drop_last()[i] == w[i]);
        lemma_weight_of_one(env, disk, r, w.drop_last(), i);
    }
}

proof fn lemma_weights_of_children(
    env: EnvView,
    disk: DiskView,
    r: Seq<ProjectView>,
    at: Seq<Seq<char>>,
    ds: Seq<DirView>,
    depth: nat,
)
    requires
        depth < 6,
    ensures
        weights(env, disk, r, ds.filter_map(waiting_children(env.skip_dirs, at, depth)))
            == looked_into_all(env, disk, r, at, ds, depth),
    decreases ds.len(),
{
    let pick = waiting_children(env.skip_dirs, at, depth);
    reveal(Seq::filter_map);
    if ds.len() == 0 {
        assert(ds.filter_map(pick) =~= seq![]);
    } else {
        let front = ds.drop_last();
        lemma_weights_of_children(env, disk, r, at, front, depth);
        lemma_open_name(env, ds.last().name);
        let got = ds.filter_map(pick);
        if swept(env.skip_dirs, ds.last().name) {
            let w = pick(ds.last())->0;
            assert(got =~= front.filter_map(pick).push(w));
            assert(got.drop_last() =~= front.filter_map(pick));
            assert(got.last() == w);
        } else {
            assert(got =~= front.filter_map(pick));
        }
    }
}

/// Whether `exclude` is what `r` holds of repositories.
spec fn is_exclude(r: Seq<ProjectView>, exclude: Seq<Seq<Seq<char>>>) -> bool {
    forall|p: Seq<Seq<char>>| #[trigger] inside_any(p, exclude) <==> in_repository(r, p)
}

#[verifier::rlimit(40)]
proof fn lemma_sweep_finds(
    env: EnvView,
    disk: DiskView,
    r: Seq<ProjectView>,
    exclude: Seq<Seq<Seq<char>>>,
    waiting: Seq<Waiting>,
    checked: nat,
    i: int,
    chain: Seq<DirView>,
) -> (j: int)
    requires
        is_exclude(r, exclude),
        0 <= i < waiting.len(),
        chain.len() > 0,
        chain[0] == waiting[i].node,
        waiting[i].depth + chain.len() <= 7,
        leads_to_manifest(env, disk, r, waiting[i].path, chain),
        checked + weights(env, disk, r, waiting) <= 2000,
    ensures
        ({
            let got = sweep(env, disk, exclude, waiting, checked);
            0 <= j < got.len() && got[j].root == way(waiting[i].path, chain) && !got[j].is_git
                && got[j].worktrees.len() == 0
        }),
    decreases 2000 - checked, waiting.len(),
{
    let w = waiting.last();
    let rest = waiting.drop_last();
    lemma_weight_of_one(env, disk, r, waiting, i);
    assert(looked_into(env, disk, r, waiting[i].path, waiting[i].node, waiting[i].depth) >= 1);
    lemma_manifest(env, disk, w.path);
    assert(inside_any(w.path, exclude) <==> in_repository(r, w.path));
    let last = i == waiting.len() - 1;
    if !last {
        assert(rest[i] == waiting[i]);
    }
    if inside_any(w.path, exclude) {
        lemma_sweep_finds(env, disk, r, exclude, rest, checked, i, chain)
    } else if has_manifest(env, disk, w.path) {
        if last {
            0
        } else {
            let j = lemma_sweep_finds(env, disk, r, exclude, rest, checked + 1, i, chain);
            let tail = sweep(env, disk, exclude, rest, checked + 1);
            let got = sweep(env, disk, exclude, waiting, checked);
            assert(got =~= seq![bare_project(w.path, seq![], false)] + tail);
            assert(got[j + 1] == tail[j]);
            j + 1
        }
    } else if w.depth >= 6 {
        lemma_sweep_finds(env, disk, r, exclude, rest, checked + 1, i, chain)
    } else {
        let pick = waiting_children(env.skip_dirs, w.path, w.depth);
        let more = w.node.children.filter_map(pick);
        lemma_weights_add(env, disk, r, rest, more);
        lemma_weights_of_children(env, disk, r, w.path, w.node.children, w.depth);
        if last {
            let next = chain[1];
            let at = choose|at: int|
                0 <= at < w.node.children.len() && w.node.children[at] == next;
            lemma_open_name(env, next.name);
            let k = lemma_picked(w.node.children, pick, at);
            let tail = chain.skip(1);
            assert((rest + more)[rest.len() + k] == more[k]);
            assert(tail[0] == next);
            lemma_sweep_finds(
                env,
                disk,
                r,
                exclude,
                rest + more,
                checked + 1,
                rest.len() + k,
                tail,
            )
        } else {
            assert((rest + more)[i] == waiting[i]);
            lemma_sweep_finds(env, disk, r, exclude, rest + more, checked + 1, i, chain)
        }
    }
}

#[verifier::rlimit(40)]
proof fn lemma_sweep_found(
    env: EnvView,
    disk: DiskView,
    r: Seq<ProjectView>,
    exclude: Seq<Seq<Seq<char>>>,
    waiting: Seq<Waiting>,
    checked: nat,
    j: int,
) -> (res: (int, Seq<DirView>))
    requires
        is_exclude(r, exclude),
        0 <= j < sweep(env, disk, exclude, waiting, checked).len(),
        forall|i: int| 0 <= i < waiting.len() ==> (#[trigger] waiting[i]).depth <= 6,
    ensures
        ({
            let got = sweep(env, disk, exclude, waiting, checked)[j];
            let (i, chain) = res;
            &&& 0 <= i < waiting.len()
            &&& chain.len() > 0
            &&& chain[0] == waiting[i].node
            &&& waiting[i].depth + chain.len() <= 7
            &&& leads_to_manifest(env, disk, r, waiting[i].path, chain)
            &&& got.root == way(waiting[i].path, chain)
            &&& !got.is_git
            &&& got.worktrees.len() == 0
        }),
    decreases 2000 - checked, waiting.len(),
{
    let w = waiting.last();
    let rest = waiting.drop_last();
    lemma_manifest(env, disk, w.path);
    assert(inside_any(w.path, exclude) <==> in_repository(r, w.path));
    assert(w == waiting[waiting.len() - 1]);
    assert forall|i: int| 0 <= i < rest.len() implies (#[trigger] rest[i]).depth <= 6 by {
        assert(rest[i] == waiting[i]);
    }
    if inside_any(w.path, exclude) {
        let res = lemma_sweep_found(env, disk, r, exclude, rest, checked, j);
        assert(rest[res.0] == waiting[res.0]);
        res
    } else if has_manifest(env, disk, w.path) {
        let tail = sweep(env, disk, exclude, rest, checked + 1);
        let got = sweep(env, disk, exclude, waiting, checked);
        assert(got =~= seq![bare_project(w.path, seq![], false)] + tail);
        if j == 0 {
            let chain = seq![w.node];
            assert(leads_to_manifest(env, disk, r, w.path, chain));
            (waiting.len() - 1, chain)
        } else {
            assert(got[j] == tail[j - 1]);
            let res = lemma_sweep_found(env, disk, r, exclude, rest, checked + 1, j - 1);
            assert(rest[res.0] == waiting[res.0]);
            res
        }
    } else if w.depth >= 6 {
        let res = lemma_sweep_found(env, disk, r, exclude, rest, checked + 1, j);
        assert(rest[res.0] == waiting[res.0]);
        res
    } else {
        let pick = waiting_children(env.skip_dirs, w.path, w.depth);
        let more = w.node.children.filter_map(pick);
        let next = rest + more;
        assert forall|i: int| 0 <= i < next.len() implies (#[trigger] next[i]).depth <= 6 by {
            if i < rest.len() {
                assert(next[i] == rest[i]);
            } else {
                let k = i - rest.len();
                assert(next[i] == more[k]);
                let c = lemma_picked_from(w.node.children, pick, k);
            }
        }
        let res = lemma_sweep_found(env, disk, r, exclude, next, checked + 1, j);
        if res.0 < rest.len() {
            assert(next[res.0] == waiting[res.0]);
            res
        } else {
            let k = res.0 - rest.len();
            assert(next[res.0] == more[k]);
            let c = lemma_picked_from(w.node.children, pick, k);
            let d = w.node.children[c];
            lemma_open_name(env, d.name);
            let chain = seq![w.node] + res.1;
            assert(chain[1] == d);
            assert(chain.skip(1) =~= res.1);
            assert(w.node.children.contains(d));
            assert(leads_to_manifest(env, disk, r, w.path, chain));
            (waiting.len() - 1, chain)
        }
    }
}

proof fn lemma_root_place(s: Seq<ProjectView>, at: Seq<Seq<char>>)
    ensures
        0 <= root_place(s, at) <= s.len(),
    decreases s.len(),
{
    if s.len() > 0 && path_lt(at, s.last().root) {
        lemma_root_place(s.drop_last(), at);
    }
}

proof fn lemma_by_root(s: Seq<ProjectView>, x: ProjectView)
    ensures
        by_root(s).contains(x) <==> s.contains(x),
        by_root(s).len() == s.len(),
    decreases s.len(),
{
    if s.len() == 0 {
        assert(by_root(s) =~= seq![]);
    } else {
        let front = by_root(s.drop_last());
        let y = s.last();
        let n = root_place(front, y.root);
        lemma_root_place(front, y.root);
        lemma_by_root(s.drop_last(), x);
        let all = by_root(s);
        assert(all == front.insert(n, y));
        if s.contains(x) {
            let i = choose|i: int| 0 <= i < s.len() && s[i] == x;
            if i == s.len() - 1 {
                assert(all[n] == x);
            } else {
                assert(s.drop_last()[i] == x);
                let k = choose|k: int| 0 <= k < front.len() && front[k] == x;
                if k < n {
                    assert(all[k] == x);
                } else {
                    assert(all[k + 1] == x);
                }
            }
        }
        if all.contains(x) {
            let k = choose|k: int| 0 <= k < all.len() && all[k] == x;
            if k == n {
                assert(s[s.len() - 1] == x);
            } else {
                if k < n {
                    assert(front[k] == x);
                } else {
                    assert(front[k - 1] == x);
                }
                assert(front.contains(x));
                let i = choose|i: int| 0 <= i < s.drop_last().len() && s.drop_last()[i] == x;
                assert(s[i] == x);
            }
        }
    }
}

spec fn in_root_order(s: Seq<ProjectView>) -> bool {
    forall|i: int, j: int|
        0 <= i < j < s.len() ==> !path_lt((#[trigger] s[j]).root, (#[trigger] s[i]).root)
}

proof fn lemma_place_is_between(s: Seq<ProjectView>, at: Seq<Seq<char>>)
    requires
        in_root_order(s),
    ensures
        forall|i: int| 0 <= i < root_place(s, at) ==> !path_lt(at, (#[trigger] s[i]).root),
        forall|i: int| root_place(s, at) <= i < s.len() ==> path_lt(at, (#[trigger] s[i]).root),
    decreases s.len(),
{
    if s.len() > 0 {
        let front = s.drop_last();
        let z = s.last();
        assert(in_root_order(front)) by {
            assert forall|i: int, j: int| 0 <= i < j < front.len() implies !path_lt(
                (#[trigger] front[j]).root,
                (#[trigger] front[i]).root,
            ) by {
                assert(front[i] == s[i] && front[j] == s[j]);
            }
        }
        lemma_root_place(front, at);
        if path_lt(at, z.root) {
            lemma_place_is_between(front, at);
            assert forall|i: int| 0 <= i < root_place(s, at) implies !path_lt(
                at,
                (#[trigger] s[i]).root,
            ) by {
                assert(front[i] == s[i]);
            }
            assert forall|i: int| root_place(s, at) <= i < s.len() implies path_lt(
                at,
                (#[trigger] s[i]).root,
            ) by {
                if i < front.len() {
                    assert(front[i] == s[i]);
                }
            }
        } else {
            assert forall|i: int| 0 <= i < s.len() implies !path_lt(at, (#[trigger] s[i]).root) by {
                if i < s.len() - 1 && path_lt(at, s[i].root) {
                    let l = s[s.len() - 1];
                    assert(!path_lt(l.root, s[i].root));
                    lemma_path_lt_total(l.root, s[i].root);
                    if l.root != s[i].root {
                        lemma_path_lt_transitive(at, s[i].root, l.root);
                    }
                }
            }
        }
    }
}

proof fn lemma_by_root_in_order(s: Seq<ProjectView>)
    ensures
        in_root_order(by_root(s)),
    decreases s.len(),
{
    if s.len() > 0 {
        let front = by_root(s.drop_last());
        let y = s.last();
        lemma_by_root_in_order(s.drop_last());
        lemma_root_place(front, y.root);
        lemma_place_is_between(front, y.root);
        let n = root_place(front, y.root);
        let all = by_root(s);
        assert(all == front.insert(n, y));
        assert forall|i: int, j: int| 0 <= i < j < all.len() implies !path_lt(
            (#[trigger] all[j]).root,
            (#[trigger] all[i]).root,
        ) by {
            if j == n {
                assert(all[i] == front[i]);
                assert(!path_lt(y.root, front[i].root));
            } else if i == n {
                assert(all[j] == front[j - 1]);
                assert(path_lt(y.root, front[j - 1].root));
                lemma_path_lt_asymmetric(y.root, front[j - 1].root);
            } else {
                let a = if i < n {
                    i
                } else {
                    i - 1
                };
                let b = if j < n {
                    j
                } else {
                    j - 1
                };
                assert(all[i] == front[a] && all[j] == front[b]);
            }
        }
    }
}

/// What is found and what is shown are the same projects.
proof fn lemma_shown(env: EnvView, disk: DiskView, i: int) -> (j: int)
    requires
        0 <= i < found_projects(env, disk).len(),
    ensures
        0 <= j < projects_in(env, disk).len(),
        projects_in(env, disk)[j] == with_manifest_names(env, disk, found_projects(env, disk)[i]),
{
    let d = described(env, disk, found_projects(env, disk));
    assert(d.contains(d[i]));
    lemma_by_root(d, d[i]);
    choose|j: int| 0 <= j < by_root(d).len() && by_root(d)[j] == d[i]
}

proof fn lemma_shown_from(env: EnvView, disk: DiskView, j: int) -> (i: int)
    requires
        0 <= j < projects_in(env, disk).len(),
    ensures
        0 <= i < found_projects(env, disk).len(),
        projects_in(env, disk)[j] == with_manifest_names(env, disk, found_projects(env, disk)[i]),
{
    let d = described(env, disk, found_projects(env, disk));
    let x = by_root(d)[j];
    assert(by_root(d).contains(x));
    lemma_by_root(d, x);
    choose|i: int| 0 <= i < d.len() && d[i] == x
}

proof fn lemma_checkouts(ps: Seq<ProjectView>, p: Seq<Seq<char>>)
    ensures
        inside_any(p, checkouts(ps)) <==> exists|j: int|
            0 <= j < ps.len() && (under(p, (#[trigger] ps[j]).root) || exists|k: int|
                0 <= k < ps[j].worktrees.len() && under(p, #[trigger] ps[j].worktrees[k])),
    decreases ps.len(),
{
    let c = checkouts(ps);
    if ps.len() == 0 {
        assert(c =~= seq![]);
    } else {
        let front = ps.drop_last();
        let z = ps.last();
        let f = checkouts(front);
        lemma_checkouts(front, p);
        assert(c == f + (seq![z.root] + z.worktrees));
        if inside_any(p, c) {
            let i = choose|i: int| 0 <= i < c.len() && under(p, #[trigger] c[i]);
            if i < f.len() {
                assert(f[i] == c[i]);
                assert(inside_any(p, f));
                let j = choose|j: int|
                    0 <= j < front.len() && (under(p, (#[trigger] front[j]).root) || exists|k: int|
                        0 <= k < front[j].worktrees.len() && under(
                            p,
                            #[trigger] front[j].worktrees[k],
                        ));
                assert(ps[j] == front[j]);
            } else if i == f.len() {
                assert(c[i] == z.root);
                assert(ps[ps.len() - 1] == z);
            } else {
                let k = i - f.len() - 1;
                assert(c[i] == z.worktrees[k]);
                assert(ps[ps.len() - 1] == z);
            }
        }
        if exists|j: int|
            0 <= j < ps.len() && (under(p, (#[trigger] ps[j]).root) || exists|k: int|
                0 <= k < ps[j].worktrees.len() && under(p, #[trigger] ps[j].worktrees[k])) {
            let j = choose|j: int|
                0 <= j < ps.len() && (under(p, (#[trigger] ps[j]).root) || exists|k: int|
                    0 <= k < ps[j].worktrees.len() && under(p, #[trigger] ps[j].worktrees[k]));
            if j < front.len() {
                assert(front[j] == ps[j]);
                assert(inside_any(p, f));
                let i = choose|i: int| 0 <= i < f.len() && under(p, #[trigger] f[i]);
                assert(c[i] == f[i]);
            } else if under(p, z.root) {
                assert(c[f.len() as int] == z.root);
            } else {
                let k = choose|k: int|
                    0 <= k < z.worktrees.len() && under(p, #[trigger] z.worktrees[k]);
                assert(c[f.len() + 1 + k] == z.worktrees[k]);
            }
        }
    }
}

proof fn lemma_prefix(p: Seq<Seq<char>>, base: Seq<Seq<char>>)
    ensures
        under(p, base) <==> base.is_prefix_of(p),
{
    if base.is_prefix_of(p) {
        assert(p.take(base.len() as int) =~= base);
    }
    if under(p, base) {
        assert(p.subrange(0, base.len() as int) =~= p.take(base.len() as int));
    }
}

proof fn lemma_exclude(env: EnvView, disk: DiskView)
    ensures
        is_exclude(
            projects_in(env, disk),
            checkouts(env.findings(ScannerId::Git).filter_map(git_project(disk))),
        ),
{
    let git = env.findings(ScannerId::Git).filter_map(git_project(disk));
    let r = projects_in(env, disk);
    let found = found_projects(env, disk);
    let ex = checkouts(git);
    assert forall|p: Seq<Seq<char>>| #[trigger] inside_any(p, ex) <==> in_repository(r, p) by {
        lemma_checkouts(git, p);
        if inside_any(p, ex) {
            let j = choose|j: int|
                0 <= j < git.len() && (under(p, (#[trigger] git[j]).root) || exists|k: int|
                    0 <= k < git[j].worktrees.len() && under(p, #[trigger] git[j].worktrees[k]));
            assert(found[j] == git[j]);
            let n = lemma_shown(env, disk, j);
            let i = lemma_picked_from(env.findings(ScannerId::Git), git_project(disk), j);
            assert(r[n].is_git && r[n].root == git[j].root && r[n].worktrees == git[j].worktrees);
            lemma_prefix(p, git[j].root);
            if !under(p, git[j].root) {
                let k = choose|k: int|
                    0 <= k < git[j].worktrees.len() && under(p, #[trigger] git[j].worktrees[k]);
                lemma_prefix(p, git[j].worktrees[k]);
                assert(r[n].worktrees[k].is_prefix_of(p));
            }
        }
        if in_repository(r, p) {
            let n = choose|n: int|
                0 <= n < r.len() && (#[trigger] r[n]).is_git && (r[n].root.is_prefix_of(p) || exists|
                    k: int,
                |
                    0 <= k < r[n].worktrees.len() && (#[trigger] r[n].worktrees[k]).is_prefix_of(p));
            let i = lemma_shown_from(env, disk, n);
            lemma_is_git(env, disk, i);
            assert(found[i] == git[i]);
            assert(git[i].root == r[n].root && git[i].worktrees == r[n].worktrees);
            lemma_prefix(p, git[i].root);
            if !git[i].root.is_prefix_of(p) {
                let k = choose|k: int|
                    0 <= k < r[n].worktrees.len() && (#[trigger] r[n].worktrees[k]).is_prefix_of(p);
                lemma_prefix(p, git[i].worktrees[k]);
                assert(under(p, git[i].worktrees[k]));
            }
        }
    }
}

/// The repositories are the first of what is found, and nothing behind them is one.
proof fn lemma_is_git(env: EnvView, disk: DiskView, i: int)
    requires
        0 <= i < found_projects(env, disk).len(),
    ensures
        found_projects(env, disk)[i].is_git <==> i < env.findings(ScannerId::Git).filter_map(
            git_project(disk),
        ).len(),
{
    let git = env.findings(ScannerId::Git).filter_map(git_project(disk));
    let found = found_projects(env, disk);
    if i < git.len() {
        assert(found[i] == git[i]);
        let k = lemma_picked_from(env.findings(ScannerId::Git), git_project(disk), i);
    } else {
        let m = manifest_projects_in(env, disk, checkouts(git));
        assert(found[i] == m[i - git.len()]);
        lemma_not_git(env, disk, checkouts(git), seq![Waiting {
            path: env.home,
            node: node_in(env.trees, env.home)->0,
            depth: 0,
        }], 0, i - git.len());
    }
}

proof fn lemma_not_git(
    env: EnvView,
    disk: DiskView,
    exclude: Seq<Seq<Seq<char>>>,
    waiting: Seq<Waiting>,
    checked: nat,
    j: int,
)
    requires
        0 <= j < sweep(env, disk, exclude, waiting, checked).len(),
    ensures
        !sweep(env, disk, exclude, waiting, checked)[j].is_git,
    decreases 2000 - checked, waiting.len(),
{
    let w = waiting.last();
    let rest = waiting.drop_last();
    if inside_any(w.path, exclude) {
        lemma_not_git(env, disk, exclude, rest, checked, j);
    } else if disk.list(w.path) is Some && has_marker(env.project_markers, disk.list(w.path)->0) {
        if j > 0 {
            lemma_not_git(env, disk, exclude, rest, checked + 1, j - 1);
        }
    } else if w.depth >= 6 {
        lemma_not_git(env, disk, exclude, rest, checked + 1, j);
    } else {
        let more = w.node.children.filter_map(
            waiting_children(env.skip_dirs, w.path, w.depth),
        );
        lemma_not_git(env, disk, exclude, rest + more, checked + 1, j);
    }
}

/// Each directory with a manifest is found: where at most two thousand directories are looked into, a
/// walked directory at most six levels below the home directory that holds a manifest, lies in no
/// repository, has no directory with a manifest above it and is reached by names that are looked
/// into, is the root of a project.
pub proof fn law_every_manifest_in_reach_makes_a_project(
    env: EnvView,
    disk: DiskView,
    chain: Seq<DirView>,
)
    requires
        chain.len() > 0,
        chain.len() <= 7,
        node_in(env.trees, env.home) == Some(chain[0]),
        leads_to_manifest(env, disk, projects_in(env, disk), env.home, chain),
        looked_into(env, disk, projects_in(env, disk), env.home, chain[0], 0) <= 2000,
    ensures
        exists|j: int|
            0 <= j < projects_in(env, disk).len() && (#[trigger] projects_in(env, disk)[j]).root
                == way(env.home, chain) && !projects_in(env, disk)[j].is_git && projects_in(
                env,
                disk,
            )[j].worktrees.len() == 0,
{
    let git = env.findings(ScannerId::Git).filter_map(git_project(disk));
    let r = projects_in(env, disk);
    let start = seq![Waiting { path: env.home, node: chain[0], depth: 0 }];
    lemma_exclude(env, disk);
    assert(start.drop_last() =~= seq![]);
    assert(weights(env, disk, r, seq![]) == 0);
    assert(weights(env, disk, r, start) == looked_into(env, disk, r, env.home, chain[0], 0));
    let k = lemma_sweep_finds(env, disk, r, checkouts(git), start, 0, 0, chain);
    let found = found_projects(env, disk);
    assert(found[git.len() + k] == sweep(env, disk, checkouts(git), start, 0)[k]);
    let j = lemma_shown(env, disk, git.len() + k);
    assert(r[j].root == way(env.home, chain));
}

/// A project that is no repository is the first directory with a manifest on a way from the home
/// directory, at most six levels down, by names that are looked into and outside every repository.
pub proof fn law_a_project_without_a_repository_holds_a_manifest(
    env: EnvView,
    disk: DiskView,
    j: int,
)
    requires
        0 <= j < projects_in(env, disk).len(),
        !projects_in(env, disk)[j].is_git,
    ensures
        exists|chain: Seq<DirView>|
            0 < chain.len() <= 7 && node_in(env.trees, env.home) == Some(chain[0])
                && #[trigger] leads_to_manifest(
                env,
                disk,
                projects_in(env, disk),
                env.home,
                chain,
            ) && projects_in(env, disk)[j].root == way(env.home, chain),
        projects_in(env, disk)[j].worktrees.len() == 0,
{
    let git = env.findings(ScannerId::Git).filter_map(git_project(disk));
    let r = projects_in(env, disk);
    lemma_exclude(env, disk);
    let i = lemma_shown_from(env, disk, j);
    lemma_is_git(env, disk, i);
    let found = found_projects(env, disk);
    let start = seq![Waiting {
        path: env.home,
        node: node_in(env.trees, env.home)->0,
        depth: 0,
    }];
    let k = i - git.len();
    assert(found[i] == manifest_projects_in(env, disk, checkouts(git))[k]);
    let res = lemma_sweep_found(env, disk, r, checkouts(git), start, 0, k);
    assert(leads_to_manifest(env, disk, r, env.home, res.1));
}

/// The repositories that the Git section has found are projects, and no other project is one.
pub proof fn law_repositories_are_projects(env: EnvView, disk: DiskView)
    ensures
        forall|i: int|
            0 <= i < env.findings(ScannerId::Git).len() && (#[trigger] env.findings(
                ScannerId::Git,
            )[i]).kind == FindingKind::GitRepo && env.findings(ScannerId::Git)[i].path is Some
                ==> exists|j: int|
                0 <= j < projects_in(env, disk).len() && (#[trigger] projects_in(env, disk)[j]).root
                    == env.findings(ScannerId::Git)[i].path->0 && projects_in(env, disk)[j].is_git,
        forall|j: int|
            0 <= j < projects_in(env, disk).len() && (#[trigger] projects_in(env, disk)[j]).is_git
                ==> exists|i: int|
                0 <= i < env.findings(ScannerId::Git).len() && (#[trigger] env.findings(
                    ScannerId::Git,
                )[i]).kind == FindingKind::GitRepo && env.findings(ScannerId::Git)[i].path == Some(
                    projects_in(env, disk)[j].root,
                ),
{
    let fs = env.findings(ScannerId::Git);
    let git = fs.filter_map(git_project(disk));
    let r = projects_in(env, disk);
    let found = found_projects(env, disk);
    assert forall|i: int|
        0 <= i < fs.len() && (#[trigger] fs[i]).kind == FindingKind::GitRepo
            && fs[i].path is Some implies exists|j: int|
        0 <= j < r.len() && (#[trigger] r[j]).root == fs[i].path->0 && r[j].is_git by {
        let k = lemma_picked(fs, git_project(disk), i);
        assert(found[k] == git[k]);
        let j = lemma_shown(env, disk, k);
        assert(r[j].root == fs[i].path->0);
    }
    assert forall|j: int| 0 <= j < r.len() && (#[trigger] r[j]).is_git implies exists|i: int|
        0 <= i < fs.len() && (#[trigger] fs[i]).kind == FindingKind::GitRepo && fs[i].path == Some(
            r[j].root,
        ) by {
        let k = lemma_shown_from(env, disk, j);
        lemma_is_git(env, disk, k);
        assert(found[k] == git[k]);
        let i = lemma_picked_from(fs, git_project(disk), k);
        assert(fs[i].kind == FindingKind::GitRepo);
    }
}

/// The projects stand in the order of their roots.
pub proof fn law_projects_stand_in_the_order_of_their_roots(
    env: EnvView,
    disk: DiskView,
    i: int,
    j: int,
)
    requires
        0 <= i < j < projects_in(env, disk).len(),
    ensures
        !path_lt(projects_in(env, disk)[j].root, projects_in(env, disk)[i].root),
{
    lemma_by_root_in_order(described(env, disk, found_projects(env, disk)));
}

/// The path of a single name in a directory is the directory's with the name behind it.
pub proof fn law_a_name_is_one_step(at: Seq<Seq<char>>, name: Seq<char>)
    requires
        single_name(name),
    ensures
        child(at, name) == at.push(name),
{
    law_first_piece(name, seq![], '/');
    let pieces = split(name, '/');
    assert(pieces == seq![name]);
    reveal_strlit(".");
    reveal_strlit("/");
    assert(dot() =~= seq!['.']);
    assert(root() =~= seq!['/']);
    reveal(Seq::filter);
    let counted = crate::fspath::counted();
    assert(pieces.drop_last() =~= seq![]);
    assert(Seq::<Seq<char>>::empty().filter(counted) =~= seq![]);
    assert(pieces.filter(counted) =~= seq![name]);
    assert(path_of(name) =~= seq![name]);
    assert(name != root()) by {
        if name == root() {
            assert(name[0] == '/');
        }
    }
    assert(joined(at, seq![name]) =~= at.push(name));
}

/// A worktree of a repository is the checkout that an entry of its `.git/worktrees` names, and each
/// such checkout that is there is one.
pub proof fn law_worktrees_are_the_checkouts_that_are_noted(
    disk: DiskView,
    repo: Seq<Seq<char>>,
    at: Seq<Seq<char>>,
)
    ensures
        ({
            let dir = child(repo, ".git/worktrees"@);
            let noted = disk.list(dir);
            worktrees_of(disk, repo).contains(at) <==> noted is Some && exists|i: int|
                0 <= i < noted->0.len() && (#[trigger] noted->0[i]).1 == NodeKind::Dir && disk.text(
                    child(child(dir, noted->0[i].0), "gitdir"@),
                ) is Some && super::discovery::checkout_in(
                    disk.text(child(child(dir, noted->0[i].0), "gitdir"@))->0,
                    child(dir, noted->0[i].0),
                ) == Some(at) && disk.stat(at) != crate::disk::Stat::Absent
        }),
{
    let dir = child(repo, ".git/worktrees"@);
    let noted = disk.list(dir);
    if noted is Some {
        let l = noted->0;
        let pick = worktree_at(disk, dir);
        let w = worktrees_of(disk, repo);
        if w.contains(at) {
            let k = choose|k: int| 0 <= k < w.len() && w[k] == at;
            let i = lemma_picked_from(l, pick, k);
            assert(l[i].1 == NodeKind::Dir);
        }
        if exists|i: int|
            0 <= i < l.len() && (#[trigger] l[i]).1 == NodeKind::Dir && pick(l[i]) == Some(at) {
            let i = choose|i: int|
                0 <= i < l.len() && (#[trigger] l[i]).1 == NodeKind::Dir && pick(l[i]) == Some(at);
            let k = lemma_picked(l, pick, i);
            assert(w[k] == at);
        }
    }
}

} // verus!
