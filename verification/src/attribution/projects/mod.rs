//! The project axis: which directories are projects, how they are called, and what belongs to
//! them.

pub mod discovery;
pub mod discovery_laws;
pub mod name_laws;
pub mod names;
pub mod resolvers;

use vstd::prelude::*;

use crate::fspath::{under, FilePath};
use crate::text::same;

verus! {

/// A project: a repository, or a directory with a manifest outside every repository.
#[derive(Clone, Debug, PartialEq, Eq)]
pub struct Project {
    pub root: FilePath,
    pub name: String,
    /// The other checkouts of the project's repository.
    pub worktrees: Vec<FilePath>,
    /// Every name that the project is known by.
    pub names: Vec<String>,
    /// The bundle ids of the project's products.
    pub bundle_ids: Vec<String>,
    pub is_git: bool,
}

/// A project, as a value.
#[verifier::ext_equal]
pub struct ProjectView {
    pub root: Seq<Seq<char>>,
    pub name: Seq<char>,
    pub worktrees: Seq<Seq<Seq<char>>>,
    pub names: Seq<Seq<char>>,
    pub bundle_ids: Seq<Seq<char>>,
    pub is_git: bool,
}

impl View for Project {
    type V = ProjectView;

    open spec fn view(&self) -> ProjectView {
        ProjectView {
            root: self.root@,
            name: self.name@,
            worktrees: self.worktrees.deep_view(),
            names: self.names.deep_view(),
            bundle_ids: self.bundle_ids.deep_view(),
            is_git: self.is_git,
        }
    }
}

impl DeepView for Project {
    type V = ProjectView;

    open spec fn deep_view(&self) -> ProjectView {
        self@
    }
}

/// The same list of paths once more.
pub fn copy_paths(v: &Vec<FilePath>) -> (r: Vec<FilePath>)
    ensures
        r.deep_view() == v.deep_view(),
{
    let mut out: Vec<FilePath> = Vec::new();
    let mut i: usize = 0;
    while i < v.len()
        invariant
            i <= v.len(),
            out.len() == i,
            forall|j: int| 0 <= j < i ==> (#[trigger] out@[j])@ == v@[j]@,
        decreases v.len() - i,
    {
        let p = v[i].copy();
        out.push(p);
        i = i + 1;
    }
    assert(out.deep_view() =~= v.deep_view());
    out
}

/// Put a path behind the others.
pub fn put_path(list: &mut Vec<FilePath>, p: FilePath)
    ensures
        final(list).deep_view() == old(list).deep_view().push(p@),
{
    let ghost was = list.deep_view();
    list.push(p);
    assert(list.deep_view() =~= was.push(p@));
}

/// Put more paths behind the others.
pub fn put_paths(list: &mut Vec<FilePath>, more: Vec<FilePath>)
    ensures
        final(list).deep_view() == old(list).deep_view() + more.deep_view(),
{
    let ghost was = list.deep_view();
    let mut rest = more;
    list.append(&mut rest);
    assert(list.deep_view() =~= was + more.deep_view());
}

/// Put a text behind the others.
pub fn put_text(list: &mut Vec<String>, s: String)
    ensures
        final(list).deep_view() == old(list).deep_view().push(s@),
{
    let ghost was = list.deep_view();
    list.push(s);
    assert(list.deep_view() =~= was.push(s@));
}

/// Put more texts behind the others.
pub fn put_texts(list: &mut Vec<String>, more: Vec<String>)
    ensures
        final(list).deep_view() == old(list).deep_view() + more.deep_view(),
{
    let ghost was = list.deep_view();
    let mut rest = more;
    list.append(&mut rest);
    assert(list.deep_view() =~= was + more.deep_view());
}

/// Whether `p` lies in the project: in its root or in one of its other checkouts.
pub open spec fn in_project(project: ProjectView, p: Seq<Seq<char>>) -> bool {
    under(p, project.root) || exists|i: int|
        0 <= i < project.worktrees.len() && under(p, #[trigger] project.worktrees[i])
}

/// Whether `path` lies in the project.
pub fn under_project(path: &FilePath, project: &Project) -> (r: bool)
    ensures
        r == in_project(project@, path@),
{
    if path.under(&project.root) {
        return true;
    }
    let mut i: usize = 0;
    while i < project.worktrees.len()
        invariant
            i <= project.worktrees.len(),
            forall|j: int| 0 <= j < i ==> !under(path@, #[trigger] project@.worktrees[j]),
        decreases project.worktrees.len() - i,
    {
        assert(project@.worktrees[i as int] == project.worktrees@[i as int]@);
        if path.under(&project.worktrees[i]) {
            return true;
        }
        i = i + 1;
    }
    false
}

/// All projects, to be asked by path.
#[derive(Debug, Default)]
pub struct ProjectIndex {
    pub list: Vec<Project>,
}

impl View for ProjectIndex {
    type V = Seq<ProjectView>;

    open spec fn view(&self) -> Seq<ProjectView> {
        self.list.deep_view()
    }
}

/// The depth of the deepest of the first `n` checkouts (the root, then the others) that `p` lies
/// in, plus one; zero where it lies in none.
pub open spec fn best_depth(project: ProjectView, p: Seq<Seq<char>>, n: int) -> nat
    decreases n,
{
    if n <= 0 {
        if under(p, project.root) {
            project.root.len() + 1
        } else {
            0
        }
    } else {
        let before = best_depth(project, p, n - 1);
        let w = project.worktrees[n - 1];
        if under(p, w) && w.len() + 1 > before {
            w.len() + 1
        } else {
            before
        }
    }
}

/// How deep the project's deepest checkout is that `p` lies in, plus one.
pub open spec fn claim_depth(project: ProjectView, p: Seq<Seq<char>>) -> nat {
    best_depth(project, p, project.worktrees.len() as int)
}

/// The place of the project that owns `p`: the one with the deepest checkout around it, and of
/// equally deep ones the first.
pub open spec fn owner_place(projects: Seq<ProjectView>, p: Seq<Seq<char>>) -> Option<int>
    decreases projects.len(),
{
    if projects.len() == 0 {
        None
    } else {
        let n = projects.len() - 1;
        let d = claim_depth(projects[n], p);
        match owner_place(projects.drop_last(), p) {
            Some(i) => if d > claim_depth(projects[i], p) {
                Some(n)
            } else {
                Some(i)
            },
            None => if d > 0 {
                Some(n)
            } else {
                None
            },
        }
    }
}

/// The project that owns `p`, where there is one.
pub open spec fn owner_in(projects: Seq<ProjectView>, p: Seq<Seq<char>>) -> Option<ProjectView> {
    match owner_place(projects, p) {
        Some(i) => Some(projects[i]),
        None => None,
    }
}

/// What an optional borrowed project is.
pub open spec fn opt_project(p: Option<&Project>) -> Option<ProjectView> {
    match p {
        Some(x) => Some(x@),
        None => None,
    }
}

/// Whether `c` is a checkout of the project that `p` lies in.
pub open spec fn holds_in(project: ProjectView, c: Seq<Seq<char>>, p: Seq<Seq<char>>) -> bool {
    under(p, c) && (c == project.root || project.worktrees.contains(c))
}

proof fn lemma_best_depth(project: ProjectView, p: Seq<Seq<char>>, n: int)
    requires
        0 <= n <= project.worktrees.len(),
    ensures
        under(p, project.root) ==> best_depth(project, p, n) >= project.root.len() + 1,
        forall|i: int|
            0 <= i < n && under(p, #[trigger] project.worktrees[i]) ==> best_depth(project, p, n)
                >= project.worktrees[i].len() + 1,
        best_depth(project, p, n) > 0 ==> exists|c: Seq<Seq<char>>|
            #[trigger] holds_in(project, c, p) && c.len() + 1 == best_depth(project, p, n),
    decreases n,
{
    if n > 0 {
        lemma_best_depth(project, p, n - 1);
        let w = project.worktrees[n - 1];
        if under(p, w) {
            assert(project.worktrees.contains(w));
            assert(holds_in(project, w, p));
        }
    } else if under(p, project.root) {
        assert(holds_in(project, project.root, p));
    }
}

proof fn lemma_claim_depth(project: ProjectView, p: Seq<Seq<char>>)
    ensures
        forall|c: Seq<Seq<char>>| #[trigger]
            holds_in(project, c, p) ==> c.len() + 1 <= claim_depth(project, p),
        claim_depth(project, p) > 0 ==> exists|c: Seq<Seq<char>>|
            #[trigger] holds_in(project, c, p) && c.len() + 1 == claim_depth(project, p),
{
    lemma_best_depth(project, p, project.worktrees.len() as int);
    assert forall|c: Seq<Seq<char>>| #[trigger] holds_in(project, c, p) implies c.len() + 1
        <= claim_depth(project, p) by {
        if c != project.root {
            let i = choose|i: int| 0 <= i < project.worktrees.len() && project.worktrees[i] == c;
            assert(under(p, project.worktrees[i]));
        }
    }
}

proof fn lemma_owner_place(projects: Seq<ProjectView>, p: Seq<Seq<char>>)
    ensures
        owner_place(projects, p) is None ==> forall|i: int|
            0 <= i < projects.len() ==> claim_depth(#[trigger] projects[i], p) == 0,
        owner_place(projects, p) is Some ==> 0 <= owner_place(projects, p)->0 < projects.len()
            && claim_depth(projects[owner_place(projects, p)->0], p) > 0,
        owner_place(projects, p) is Some ==> forall|i: int|
            0 <= i < projects.len() ==> claim_depth(#[trigger] projects[i], p) <= claim_depth(
                projects[owner_place(projects, p)->0],
                p,
            ),
    decreases projects.len(),
{
    if projects.len() > 0 {
        let front = projects.drop_last();
        lemma_owner_place(front, p);
        assert forall|i: int| 0 <= i < front.len() implies front[i] == projects[i] by {}
    }
}

/// The project that owns a path has a checkout around it, and no checkout of any project around the
/// path is deeper. Where no project has a checkout around the path, nobody owns it.
pub proof fn law_owner_has_the_deepest_checkout(projects: Seq<ProjectView>, p: Seq<Seq<char>>)
    ensures
        owner_in(projects, p) is None <==> forall|i: int|
            0 <= i < projects.len() ==> !in_project(#[trigger] projects[i], p),
        owner_in(projects, p) is Some ==> projects.contains(owner_in(projects, p)->0) && exists|
            c: Seq<Seq<char>>,
        |
            #[trigger] holds_in(owner_in(projects, p)->0, c, p) && forall|
                i: int,
                d: Seq<Seq<char>>,
            |
                0 <= i < projects.len() && #[trigger] holds_in(projects[i], d, p) ==> d.len()
                    <= c.len(),
{
    lemma_owner_place(projects, p);
    assert forall|i: int| 0 <= i < projects.len() implies (in_project(#[trigger] projects[i], p)
        <==> claim_depth(projects[i], p) > 0) by {
        let q = projects[i];
        lemma_claim_depth(q, p);
        if in_project(q, p) {
            if under(p, q.root) {
                assert(holds_in(q, q.root, p));
            } else {
                let k = choose|k: int|
                    0 <= k < q.worktrees.len() && under(p, #[trigger] q.worktrees[k]);
                assert(q.worktrees.contains(q.worktrees[k]));
                assert(holds_in(q, q.worktrees[k], p));
            }
        }
        if claim_depth(q, p) > 0 {
            let c = choose|c: Seq<Seq<char>>|
                #[trigger] holds_in(q, c, p) && c.len() + 1 == claim_depth(q, p);
            if c != q.root {
                let k = choose|k: int| 0 <= k < q.worktrees.len() && q.worktrees[k] == c;
                assert(under(p, q.worktrees[k]));
            }
        }
    }
    match owner_place(projects, p) {
        Some(n) => {
            let q = projects[n];
            lemma_claim_depth(q, p);
            let c = choose|c: Seq<Seq<char>>|
                #[trigger] holds_in(q, c, p) && c.len() + 1 == claim_depth(q, p);
            assert forall|i: int, d: Seq<Seq<char>>|
                0 <= i < projects.len() && #[trigger] holds_in(projects[i], d, p) implies d.len()
                <= c.len() by {
                lemma_claim_depth(projects[i], p);
            }
            assert(holds_in(q, c, p));
            assert(in_project(q, p));
        },
        None => {},
    }
}

fn depth_of(project: &Project, path: &FilePath) -> (r: Option<usize>)
    ensures
        claim_depth(project@, path@) == (match r {
            Some(d) => d + 1,
            None => 0,
        }),
{
    let mut best: Option<usize> = None;
    if path.under(&project.root) {
        best = Some(project.root.comps.len());
    }
    let mut i: usize = 0;
    while i < project.worktrees.len()
        invariant
            i <= project.worktrees.len(),
            best_depth(project@, path@, i as int) == (match best {
                Some(d) => d + 1,
                None => 0,
            }),
        decreases project.worktrees.len() - i,
    {
        assert(project@.worktrees[i as int] == project.worktrees@[i as int]@);
        if path.under(&project.worktrees[i]) {
            let d = project.worktrees[i].comps.len();
            let deeper = match best {
                Some(b) => d > b,
                None => true,
            };
            if deeper {
                best = Some(d);
            }
        }
        i = i + 1;
    }
    best
}

impl ProjectIndex {
    /// An index of these projects.
    pub fn new(projects: Vec<Project>) -> (r: ProjectIndex)
        ensures
            r@ == projects.deep_view(),
    {
        ProjectIndex { list: projects }
    }

    /// The projects.
    pub fn projects(&self) -> (r: &Vec<Project>)
        ensures
            r.deep_view() == self@,
    {
        &self.list
    }

    /// The project that owns `path`: the one with the deepest checkout around it, and of equally
    /// deep ones the first.
    pub fn owner_of(&self, path: &FilePath) -> (r: Option<&Project>)
        ensures
            opt_project(r) == owner_in(self@, path@),
    {
        let ghost all = self@;
        let mut best: Option<usize> = None;
        let mut best_depth: usize = 0;
        let mut i: usize = 0;
        while i < self.list.len()
            invariant
                i <= self.list.len(),
                all == self@,
                owner_place(all.take(i as int), path@) == (match best {
                    Some(n) => Some(n as int),
                    None => None,
                }),
                best is Some ==> best->0 < i && best_depth + 1 == claim_depth(
                    all[best->0 as int],
                    path@,
                ),
            decreases self.list.len() - i,
        {
            proof {
                assert(all[i as int] == self.list@[i as int]@);
                assert(all.take(i + 1).drop_last() =~= all.take(i as int));
                assert(all.take(i + 1)[i as int] == all[i as int]);
                if best is Some {
                    assert(all.take(i + 1)[best->0 as int] == all[best->0 as int]);
                }
            }
            if let Some(d) = depth_of(&self.list[i], path) {
                let deeper = match best {
                    Some(_) => d > best_depth,
                    None => true,
                };
                if deeper {
                    best = Some(i);
                    best_depth = d;
                }
            }
            i = i + 1;
        }
        assert(all.take(i as int) =~= all);
        match best {
            Some(n) => Some(&self.list[n]),
            None => None,
        }
    }
}

/// The directories that hold build output or copies of dependencies.
pub open spec fn artifact_dir(name: Seq<char>) -> bool {
    ||| name == "node_modules"@
    ||| name == "target"@
    ||| name == ".venv"@
    ||| name == "venv"@
    ||| name == "build"@
    ||| name == "dist"@
    ||| name == "Pods"@
    ||| name == "__pycache__"@
}

/// Whether a directory of this name holds build output or copies of dependencies.
pub fn is_artifact_dir(name: &str) -> (r: bool)
    ensures
        r == artifact_dir(name@),
{
    same(name, "node_modules") || same(name, "target") || same(name, ".venv") || same(name, "venv")
        || same(name, "build") || same(name, "dist") || same(name, "Pods") || same(
        name,
        "__pycache__",
    )
}

} // verus!
