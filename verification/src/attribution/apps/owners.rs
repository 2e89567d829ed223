//! Who can own something on the app axis: app bundles, Homebrew formulae, Homebrew itself and
//! global tools.

use vstd::prelude::*;

use crate::attribution::model::{AgentNames, copy_opt_path, EnvView, Owner, OwnerKind, OwnerView, ResolveEnv};
use crate::doc::{field, list_of, text_field, text_of, Doc, DocView};
use crate::fspath::{child, file_name, joined, path_of, path_text, stem, stem_of, under, FilePath};
use crate::order::{insert_key, lemma_sorted_keys_unique, sorted_keys};
use crate::pathmap::{lemma_sorted_paths_unique, lemma_sorted_place, sorted_paths, PathMap};
use crate::scan::{Finding, FindingKind, FindingView, ScannerId};
use crate::text::{cat2, ends, listed, same, str_ends};

verus! {

/// An app bundle and what else it is known by.
#[derive(Debug)]
pub struct AppOwner {
    pub owner: Owner,
    /// The bundle ids of the helper apps inside the bundle.
    pub aliases: Vec<String>,
    /// The Homebrew casks that install the app.
    pub cask_names: Vec<String>,
    pub bundle_name: Option<String>,
    pub display_name: Option<String>,
    pub executable: Option<String>,
}

/// An app bundle and what else it is known by, as a value.
#[verifier::ext_equal]
pub struct AppView {
    pub owner: OwnerView,
    pub aliases: Seq<Seq<char>>,
    pub cask_names: Seq<Seq<char>>,
    pub bundle_name: Option<Seq<char>>,
    pub display_name: Option<Seq<char>>,
    pub executable: Option<Seq<char>>,
}

impl DeepView for AppOwner {
    type V = AppView;

    open spec fn deep_view(&self) -> AppView {
        AppView {
            owner: self.owner@,
            aliases: self.aliases.deep_view(),
            cask_names: self.cask_names.deep_view(),
            bundle_name: self.bundle_name.deep_view(),
            display_name: self.display_name.deep_view(),
            executable: self.executable.deep_view(),
        }
    }
}

/// A Homebrew formula.
#[derive(Debug)]
pub struct FormulaOwner {
    pub owner: Owner,
    /// The names of the programs that it installs.
    pub bin_names: Vec<String>,
    /// The formulae that need it.
    pub dependents: Vec<String>,
}

/// A Homebrew formula, as a value.
#[verifier::ext_equal]
pub struct FormulaView {
    pub owner: OwnerView,
    pub bin_names: Seq<Seq<char>>,
    pub dependents: Seq<Seq<char>>,
}

impl DeepView for FormulaOwner {
    type V = FormulaView;

    open spec fn deep_view(&self) -> FormulaView {
        FormulaView {
            owner: self.owner@,
            bin_names: self.bin_names.deep_view(),
            dependents: self.dependents.deep_view(),
        }
    }
}

/// A global tool.
#[derive(Debug)]
pub struct ToolOwner {
    pub owner: Owner,
    /// Further directories that are the tool's alone.
    pub extra_paths: Vec<FilePath>,
}

/// A global tool, as a value.
#[verifier::ext_equal]
pub struct ToolView {
    pub owner: OwnerView,
    pub extra_paths: Seq<Seq<Seq<char>>>,
}

impl DeepView for ToolOwner {
    type V = ToolView;

    open spec fn deep_view(&self) -> ToolView {
        ToolView { owner: self.owner@, extra_paths: self.extra_paths.deep_view() }
    }
}

/// Every owner on the app axis.
#[derive(Debug)]
pub struct Owners {
    pub apps: Vec<AppOwner>,
    pub formulae: Vec<FormulaOwner>,
    pub tools: Vec<ToolOwner>,
    pub homebrew: Option<Owner>,
    /// The coding agent whose cache is known by its name alone.
    pub agent: AgentNames,
}

/// Every owner on the app axis, as a value.
#[verifier::ext_equal]
pub struct OwnersView {
    pub apps: Seq<AppView>,
    pub formulae: Seq<FormulaView>,
    pub tools: Seq<ToolView>,
    pub homebrew: Option<OwnerView>,
    pub agent: AgentNames,
}

impl View for Owners {
    type V = OwnersView;

    open spec fn view(&self) -> OwnersView {
        OwnersView {
            apps: self.apps.deep_view(),
            formulae: self.formulae.deep_view(),
            tools: self.tools.deep_view(),
            homebrew: self.homebrew.deep_view(),
            agent: self.agent,
        }
    }
}

impl OwnersView {
    /// The plain owners: apps, formulae, tools, Homebrew.
    pub open spec fn all(self) -> Seq<OwnerView> {
        Seq::new(self.apps.len(), |i: int| self.apps[i].owner) + Seq::new(
            self.formulae.len(),
            |i: int| self.formulae[i].owner,
        ) + Seq::new(self.tools.len(), |i: int| self.tools[i].owner) + (match self.homebrew {
            Some(o) => seq![o],
            None => seq![],
        })
    }
}

impl Owners {
    /// The plain owners: apps, formulae, tools, Homebrew.
    pub fn into_owners(self) -> (r: Vec<Owner>)
        ensures
            r.deep_view() == self@.all(),
    {
        let mut out: Vec<Owner> = Vec::new();
        let ghost all = self@.all();
        let mut i: usize = 0;
        while i < self.apps.len()
            invariant
                i <= self.apps.len(),
                all == self@.all(),
                out.deep_view() =~= all.take(i as int),
            decreases self.apps.len() - i,
        {
            let ghost was = out.deep_view();
            let o = self.apps[i].owner.copy();
            out.push(o);
            assert(out.deep_view() =~= was.push(o@));
            i = i + 1;
        }
        let mut j: usize = 0;
        while j < self.formulae.len()
            invariant
                i == self.apps.len(),
                j <= self.formulae.len(),
                all == self@.all(),
                out.deep_view() =~= all.take(i + j),
            decreases self.formulae.len() - j,
        {
            let ghost was = out.deep_view();
            let o = self.formulae[j].owner.copy();
            out.push(o);
            assert(out.deep_view() =~= was.push(o@));
            j = j + 1;
        }
        let mut k: usize = 0;
        while k < self.tools.len()
            invariant
                i == self.apps.len(),
                j == self.formulae.len(),
                k <= self.tools.len(),
                all == self@.all(),
                out.deep_view() =~= all.take(i + j + k),
            decreases self.tools.len() - k,
        {
            let ghost was = out.deep_view();
            let o = self.tools[k].owner.copy();
            out.push(o);
            assert(out.deep_view() =~= was.push(o@));
            k = k + 1;
        }
        let ghost was = out.deep_view();
        if let Some(h) = self.homebrew {
            out.push(h);
            assert(out.deep_view() =~= was.push(h@));
        }
        assert(out.deep_view() =~= all);
        out
    }
}

/// The directories that apps are looked for in, an inner one before an outer one.
pub open spec fn app_roots(home: Seq<Seq<char>>) -> Seq<Seq<Seq<char>>> {
    seq![
        path_of("/System/Applications/Utilities"@),
        path_of("/System/Applications"@),
        path_of("/Applications"@),
        child(home, "Applications"@),
    ]
}

fn owner_roots(env: &ResolveEnv) -> (r: Vec<FilePath>)
    ensures
        r.deep_view() == app_roots(env@.home),
{
    let r = vec![
        FilePath::from_text("/System/Applications/Utilities"),
        FilePath::from_text("/System/Applications"),
        FilePath::from_text("/Applications"),
        env.home.child("Applications"),
    ];
    assert(r.deep_view() =~= app_roots(env@.home));
    r
}

/// The first of `roots` that `p` lies in.
pub open spec fn root_over(roots: Seq<Seq<Seq<char>>>, p: Seq<Seq<char>>) -> Option<Seq<Seq<char>>>
    decreases roots.len(),
{
    if roots.len() == 0 {
        None
    } else if under(p, roots[0]) {
        Some(roots[0])
    } else {
        root_over(roots.skip(1), p)
    }
}

/// The outermost app bundle that `p` is or lies in: directly in an app directory, or one folder
/// further down.
pub open spec fn outer_app(roots: Seq<Seq<Seq<char>>>, p: Seq<Seq<char>>) -> Option<
    Seq<Seq<char>>,
> {
    match root_over(roots, p) {
        Some(r) => {
            let rel = p.skip(r.len() as int);
            if rel.len() > 0 && ends(rel[0], ".app"@) {
                Some(joined(r, rel.take(1)))
            } else if rel.len() > 1 && ends(rel[1], ".app"@) {
                Some(joined(r, rel.take(2)))
            } else {
                None
            }
        },
        None => None,
    }
}

fn outer_bundle(roots: &Vec<FilePath>, p: &FilePath) -> (r: Option<FilePath>)
    ensures
        r.deep_view() == outer_app(roots.deep_view(), p@),
{
    let ghost all = roots.deep_view();
    let mut i: usize = 0;
    assert(all.skip(0) =~= all);
    while i < roots.len()
        invariant
            i <= roots.len(),
            all == roots.deep_view(),
            root_over(all, p@) == root_over(all.skip(i as int), p@),
        decreases roots.len() - i,
    {
        assert(all.skip(i as int)[0] == roots@[i as int]@);
        assert(all.skip(i as int).skip(1) =~= all.skip(i + 1));
        if p.under(&roots[i]) {
            let top = &roots[i];
            let rel = p.behind(top.comps.len());
            let ghost rv = rel@;
            let n = rel.comps.len();
            if n > 0 {
                assert(rv[0] == rel.comps@[0]@);
            }
            if n > 1 {
                assert(rv[1] == rel.comps@[1]@);
            }
            let mut keep: usize = 0;
            if n > 0 && str_ends(rel.comps[0].as_str(), ".app") {
                keep = 1;
            } else if n > 1 && str_ends(rel.comps[1].as_str(), ".app") {
                keep = 2;
            } else {
                return None;
            }
            let mut short = rel;
            short.comps.truncate(keep);
            assert(short@ =~= rv.take(keep as int));
            return Some(top.join(&short));
        }
        i = i + 1;
    }
    None
}

/// The bundle that a finding is about, where it is an outermost one.
pub open spec fn top_path(roots: Seq<Seq<Seq<char>>>, f: FindingView) -> Option<Seq<Seq<char>>> {
    match f.path {
        Some(p) => if outer_app(roots, p) == Some(p) {
            Some(p)
        } else {
            None
        },
        None => None,
    }
}

/// The bundle id of a helper app inside the bundle `p`.
pub open spec fn helper_id(roots: Seq<Seq<Seq<char>>>, p: Seq<Seq<char>>) -> spec_fn(
    FindingView,
) -> Option<Seq<char>> {
    |f: FindingView|
        if f.path is Some && outer_app(roots, f.path->0) == Some(p) && f.path->0 != p {
            text_field(f.meta, "bundle_id"@)
        } else {
            None
        }
}

/// Whether `s` lists the outermost bundles, each once, in path order.
pub open spec fn lists_apps(
    roots: Seq<Seq<Seq<char>>>,
    findings: Seq<FindingView>,
    s: Seq<Seq<Seq<char>>>,
) -> bool {
    &&& sorted_paths(s)
    &&& forall|p: Seq<Seq<char>>| #[trigger]
        s.contains(p) <==> exists|i: int|
            0 <= i < findings.len() && top_path(roots, #[trigger] findings[i]) == Some(p)
}

/// The outermost bundles, each once, in path order.
pub open spec fn app_paths(roots: Seq<Seq<Seq<char>>>, findings: Seq<FindingView>) -> Seq<
    Seq<Seq<char>>,
> {
    choose|s: Seq<Seq<Seq<char>>>| lists_apps(roots, findings, s)
}

/// The first finding about the bundle `p`.
pub open spec fn first_about(
    roots: Seq<Seq<Seq<char>>>,
    findings: Seq<FindingView>,
    p: Seq<Seq<char>>,
) -> FindingView
    decreases findings.len(),
{
    if findings.len() <= 1 || top_path(roots, findings[0]) == Some(p) {
        findings[0]
    } else {
        first_about(roots, findings.skip(1), p)
    }
}

/// `x` behind `s`, unless it is there already.
pub open spec fn with_new<T>(s: Seq<T>, x: T) -> Seq<T> {
    if s.contains(x) {
        s
    } else {
        s.push(x)
    }
}

/// Whether one of the listed texts spells the path `p`.
pub open spec fn names_path(items: Option<Seq<DocView>>, p: Seq<Seq<char>>) -> bool {
    items is Some && exists|i: int|
        0 <= i < items->0.len() && text_of(Some(#[trigger] items->0[i])) is Some && path_of(
            text_of(Some(items->0[i]))->0,
        ) == p
}

/// The name of a cask.
pub open spec fn cask_token(f: FindingView) -> Seq<char> {
    match text_field(f.meta, "token"@) {
        Some(t) => t,
        None => f.title,
    }
}

/// The casks that install the bundle `p`, each once.
pub open spec fn casks_of(brew: Seq<FindingView>, p: Seq<Seq<char>>) -> Seq<Seq<char>>
    decreases brew.len(),
{
    if brew.len() == 0 {
        seq![]
    } else {
        let before = casks_of(brew.drop_last(), p);
        let f = brew.last();
        if f.kind == FindingKind::BrewCask && names_path(
            list_of(field(f.meta, "app_paths"@)),
            p,
        ) {
            with_new(before, cask_token(f))
        } else {
            before
        }
    }
}

/// The owner that an app finding and its surroundings make.
pub open spec fn app_of(
    roots: Seq<Seq<Seq<char>>>,
    findings: Seq<FindingView>,
    brew: Seq<FindingView>,
    p: Seq<Seq<char>>,
) -> AppView {
    let f = first_about(roots, findings, p);
    AppView {
        owner: OwnerView {
            key: match text_field(f.meta, "bundle_id"@) {
                Some(id) => id,
                None => path_text(p),
            },
            kind: OwnerKind::App,
            name: match file_name(p) {
                Some(n) => stem_of(n),
                None => f.title,
            },
            path: Some(p),
        },
        aliases: findings.filter_map(helper_id(roots, p)),
        cask_names: casks_of(brew, p),
        bundle_name: text_field(f.meta, "bundle_name"@),
        display_name: text_field(f.meta, "display_name"@),
        executable: text_field(f.meta, "executable"@),
    }
}

/// Every app, in path order.
pub open spec fn apps_in(env: EnvView) -> Seq<AppView> {
    let roots = app_roots(env.home);
    let findings = env.findings(ScannerId::Apps);
    let paths = app_paths(roots, findings);
    Seq::new(
        paths.len(),
        |i: int| app_of(roots, findings, env.findings(ScannerId::Brew), paths[i]),
    )
}

fn opt_owned(s: Option<&str>) -> (r: Option<String>)
    ensures
        r.deep_view() == crate::doc::opt_str(s),
{
    match s {
        Some(x) => Some(x.to_owned()),
        None => None,
    }
}

fn helper_ids(roots: &Vec<FilePath>, findings: &[Finding], p: &FilePath) -> (r: Vec<String>)
    ensures
        r.deep_view() == findings.deep_view().filter_map(helper_id(roots.deep_view(), p@)),
{
    let ghost all = findings.deep_view();
    let ghost pick = helper_id(roots.deep_view(), p@);
    let mut out: Vec<String> = Vec::new();
    let mut i: usize = 0;
    proof {
        assert(all.take(0) =~= seq![]);
        reveal(Seq::filter_map);
        assert(out.deep_view() =~= all.take(0).filter_map(pick));
    }
    while i < findings.len()
        invariant
            i <= findings.len(),
            all == findings.deep_view(),
            pick == helper_id(roots.deep_view(), p@),
            out.deep_view() == all.take(i as int).filter_map(pick),
        decreases findings.len() - i,
    {
        let f = &findings[i];
        let ghost was = out.deep_view();
        proof {
            assert(all[i as int] == f@);
            all.lemma_filter_map_take_succ(pick, i as int);
        }
        if let Some(path) = &f.path {
            if let Some(outer) = outer_bundle(roots, path) {
                if outer.same(p) && !path.same(p) {
                    if let Some(id) = f.meta.text("bundle_id") {
                        out.push(id.to_owned());
                        assert(out.deep_view() =~= was.push(id@));
                    }
                }
            }
        }
        assert(out.deep_view() =~= all.take(i + 1).filter_map(pick));
        i = i + 1;
    }
    assert(all.take(i as int) =~= all);
    out
}

fn lists_path(items: &Vec<Doc>, p: &FilePath) -> (r: bool)
    ensures
        r == names_path(Some(items.deep_view()), p@),
{
    let ghost all = items.deep_view();
    let mut i: usize = 0;
    while i < items.len()
        invariant
            i <= items.len(),
            all == items.deep_view(),
            forall|j: int|
                0 <= j < i ==> !(text_of(Some(#[trigger] all[j])) is Some && path_of(
                    text_of(Some(all[j]))->0,
                ) == p@),
        decreases items.len() - i,
    {
        assert(all[i as int] == items@[i as int]@);
        if let Some(t) = items[i].as_str() {
            if FilePath::from_text(t).same(p) {
                return true;
            }
        }
        i = i + 1;
    }
    false
}

fn cask_names(brew: &[Finding], p: &FilePath) -> (r: Vec<String>)
    ensures
        r.deep_view() == casks_of(brew.deep_view(), p@),
{
    let ghost all = brew.deep_view();
    let mut out: Vec<String> = Vec::new();
    let mut i: usize = 0;
    assert(out.deep_view() =~= casks_of(all.take(0), p@));
    while i < brew.len()
        invariant
            i <= brew.len(),
            all == brew.deep_view(),
            out.deep_view() == casks_of(all.take(i as int), p@),
        decreases brew.len() - i,
    {
        let f = &brew[i];
        let ghost was = out.deep_view();
        proof {
            assert(all[i as int] == f@);
            assert(all.take(i + 1).drop_last() =~= all.take(i as int));
            assert(all.take(i + 1).last() == f@);
        }
        if f.kind == FindingKind::BrewCask {
            if let Some(items) = f.meta.list("app_paths") {
                if lists_path(items, p) {
                    let token = match f.meta.text("token") {
                        Some(t) => t.to_owned(),
                        None => f.title.clone(),
                    };
                    assert(token@ == cask_token(f@));
                    if !listed(&out, token.as_str()) {
                        out.push(token);
                        assert(out.deep_view() =~= was.push(token@));
                    }
                }
            }
        }
        i = i + 1;
    }
    assert(all.take(i as int) =~= all);
    out
}

/// The places of the first findings about each bundle, by bundle.
fn top_level(roots: &Vec<FilePath>, findings: &[Finding]) -> (r: PathMap<usize>)
    ensures
        r.wf(),
        lists_apps(roots.deep_view(), findings.deep_view(), r.keys.deep_view()),
        forall|i: int|
            #![trigger r.values@[i]]
            0 <= i < r.keys.len() ==> r.values@[i] < findings@.len()
                && findings.deep_view()[r.values@[i] as int] == first_about(
                roots.deep_view(),
                findings.deep_view(),
                r.keys.deep_view()[i],
            ),
{
    let ghost all = findings.deep_view();
    let ghost rs = roots.deep_view();
    let mut map: PathMap<usize> = PathMap::new();
    let mut n: usize = findings.len();
    assert(all.skip(n as int) =~= seq![]);
    while n > 0
        invariant
            n <= findings.len(),
            all == findings.deep_view(),
            rs == roots.deep_view(),
            map.wf(),
            forall|p: Seq<Seq<char>>| #[trigger]
                map@.contains_key(p) <==> exists|i: int|
                    n <= i < all.len() && top_path(rs, #[trigger] all[i]) == Some(p),
            forall|p: Seq<Seq<char>>| #[trigger]
                map@.contains_key(p) ==> n <= map@[p] < all.len() && all[map@[p] as int]
                    == first_about(rs, all.skip(n as int), p),
        decreases n,
    {
        let m: usize = n - 1;
        let f = &findings[m];
        let ghost map0 = map@;
        let ghost v = all.skip(m as int);
        proof {
            assert(all[m as int] == f@);
            assert(v[0] == f@);
            assert(v.skip(1) =~= all.skip(n as int));
        }
        let mut about: Option<FilePath> = None;
        if let Some(path) = &f.path {
            if let Some(outer) = outer_bundle(roots, path) {
                if outer.same(path) {
                    about = Some(path.copy());
                }
            }
        }
        assert(about.deep_view() == top_path(rs, f@));
        match about {
            Some(path) => {
                let ghost q = path@;
                map.set(path, m);
                proof {
                    assert forall|p: Seq<Seq<char>>| #[trigger] map@.contains_key(p) <==> exists|i: int|
                        m <= i < all.len() && top_path(rs, #[trigger] all[i]) == Some(p) by {
                        if p == q {
                            assert(top_path(rs, all[m as int]) == Some(p));
                        } else if map0.contains_key(p) {
                            let i = choose|i: int|
                                n <= i < all.len() && top_path(rs, #[trigger] all[i]) == Some(p);
                            assert(m <= i);
                        }
                    }
                    assert forall|p: Seq<Seq<char>>| #[trigger] map@.contains_key(p) implies m
                        <= map@[p] < all.len() && all[map@[p] as int] == first_about(rs, v, p) by {
                        if p != q {
                            assert(map0.contains_key(p));
                        }
                    }
                }
            },
            None => {
                proof {
                    assert forall|p: Seq<Seq<char>>| #[trigger] map@.contains_key(p) <==> exists|i: int|
                        m <= i < all.len() && top_path(rs, #[trigger] all[i]) == Some(p) by {
                        if map0.contains_key(p) {
                            let i = choose|i: int|
                                n <= i < all.len() && top_path(rs, #[trigger] all[i]) == Some(p);
                            assert(m <= i);
                        }
                    }
                }
            },
        }
        n = m;
    }
    proof {
        assert(all.skip(0) =~= all);
        let keys = map.keys.deep_view();
        assert forall|p: Seq<Seq<char>>| #[trigger] keys.contains(p) <==> exists|i: int|
            0 <= i < all.len() && top_path(rs, #[trigger] all[i]) == Some(p) by {
            assert(map@.contains_key(p) <==> keys.contains(p));
        }
        assert forall|i: int| #![trigger map.values@[i]] 0 <= i < map.keys.len() implies map.values@[i]
            < findings@.len() && all[map.values@[i] as int] == first_about(rs, all, keys[i]) by {
            let p = keys[i];
            assert(keys.contains(p));
            assert(map@.contains_key(p));
            lemma_sorted_place(keys, i, keys.index_of(p));
            assert(map@[p] == map.values.deep_view()[i]);
        }
    }
    map
}

/// Every app, in path order.
fn discover_apps(env: &ResolveEnv) -> (r: Vec<AppOwner>)
    ensures
        r.deep_view() == apps_in(env@),
{
    let roots = owner_roots(env);
    let findings = env.findings(ScannerId::Apps);
    let brew = env.findings(ScannerId::Brew);
    let map = top_level(&roots, findings);
    let ghost rs = roots.deep_view();
    let ghost all = findings.deep_view();
    let ghost paths = map.keys.deep_view();
    proof {
        let t = app_paths(rs, all);
        assert(lists_apps(rs, all, t));
        assert forall|p: Seq<Seq<char>>| #[trigger] t.contains(p) <==> paths.contains(p) by {
            assert(paths.contains(p) <==> exists|i: int|
                0 <= i < all.len() && top_path(rs, #[trigger] all[i]) == Some(p));
        }
        lemma_sorted_paths_unique(t, paths);
    }
    let mut out: Vec<AppOwner> = Vec::new();
    let mut i: usize = 0;
    while i < map.keys.len()
        invariant
            i <= map.keys.len(),
            map.wf(),
            rs == roots.deep_view(),
            all == findings.deep_view(),
            paths == map.keys.deep_view(),
            paths == app_paths(rs, all),
            rs == app_roots(env@.home),
            all == env@.findings(ScannerId::Apps),
            brew.deep_view() == env@.findings(ScannerId::Brew),
            forall|j: int|
                #![trigger map.values@[j]]
                0 <= j < map.keys.len() ==> map.values@[j] < findings@.len()
                    && all[map.values@[j] as int] == first_about(rs, all, paths[j]),
            out.deep_view() =~= apps_in(env@).take(i as int),
        decreases map.keys.len() - i,
    {
        let p = &map.keys[i];
        let n = map.values[i];
        assert(map.values@[i as int] == n);
        let f = &findings[n];
        assert(paths[i as int] == p@);
        assert(all[n as int] == f@);
        let key = match f.meta.text("bundle_id") {
            Some(id) => id.to_owned(),
            None => p.text(),
        };
        let name = match p.file_name() {
            Some(leaf) => stem(leaf),
            None => f.title.clone(),
        };
        let app = AppOwner {
            owner: Owner { key, kind: OwnerKind::App, name, path: Some(p.copy()) },
            aliases: helper_ids(&roots, findings, p),
            cask_names: cask_names(brew, p),
            bundle_name: opt_owned(f.meta.text("bundle_name")),
            display_name: opt_owned(f.meta.text("display_name")),
            executable: opt_owned(f.meta.text("executable")),
        };
        let ghost was = out.deep_view();
        assert(app.deep_view() == apps_in(env@)[i as int]);
        out.push(app);
        assert(out.deep_view() =~= was.push(app.deep_view()));
        i = i + 1;
    }
    assert(apps_in(env@).take(i as int) =~= apps_in(env@));
    out
}

/// The name that a finding gives, or its title.
pub open spec fn name_in(f: FindingView) -> Seq<char> {
    match text_field(f.meta, "name"@) {
        Some(n) => n,
        None => f.title,
    }
}

fn finding_name(f: &Finding) -> (r: String)
    ensures
        r@ == name_in(f@),
{
    match f.meta.text("name") {
        Some(n) => n.to_owned(),
        None => f.title.clone(),
    }
}

/// The texts among the items of a list.
pub open spec fn texts_of(items: Option<Seq<DocView>>) -> Seq<Seq<char>> {
    match items {
        Some(v) => v.filter_map(|d: DocView| text_of(Some(d))),
        None => seq![],
    }
}

/// The texts among the items of the list under `key`.
pub fn text_items(d: &Doc, key: &str) -> (r: Vec<String>)
    ensures
        r.deep_view() == texts_of(list_of(field(d@, key@))),
{
    let mut out: Vec<String> = Vec::new();
    match d.list(key) {
        Some(items) => {
            let ghost all = items.deep_view();
            let ghost pick = |d: DocView| text_of(Some(d));
            let mut i: usize = 0;
            proof {
                assert(all.take(0) =~= seq![]);
                reveal(Seq::filter_map);
                assert(out.deep_view() =~= all.take(0).filter_map(pick));
            }
            while i < items.len()
                invariant
                    i <= items.len(),
                    all == items.deep_view(),
                    pick == (|d: DocView| text_of(Some(d))),
                    out.deep_view() == all.take(i as int).filter_map(pick),
                decreases items.len() - i,
            {
                let ghost was = out.deep_view();
                proof {
                    assert(all[i as int] == items@[i as int]@);
                    all.lemma_filter_map_take_succ(pick, i as int);
                }
                if let Some(t) = items[i].as_str() {
                    out.push(t.to_owned());
                    assert(out.deep_view() =~= was.push(t@));
                }
                assert(out.deep_view() =~= all.take(i + 1).filter_map(pick));
                i = i + 1;
            }
            assert(all.take(i as int) =~= all);
            out
        },
        None => {
            assert(out.deep_view() =~= seq![]);
            out
        },
    }
}

/// The formula that a finding is about.
pub open spec fn formula_of(prefix: Option<Seq<Seq<char>>>, f: FindingView) -> FormulaView {
    let name = name_in(f);
    FormulaView {
        owner: OwnerView {
            key: "formula:"@ + name,
            kind: OwnerKind::Formula,
            name,
            path: match f.path {
                Some(p) => Some(p),
                None => match prefix {
                    Some(p) => Some(child(child(p, "Cellar"@), name)),
                    None => None,
                },
            },
        },
        bin_names: seq![name],
        dependents: texts_of(list_of(field(f.meta, "dependents"@))),
    }
}

/// The formula that a finding is about, where it is about one.
pub open spec fn formula_in(prefix: Option<Seq<Seq<char>>>) -> spec_fn(FindingView) -> Option<
    FormulaView,
> {
    |f: FindingView|
        if f.kind == FindingKind::BrewFormula {
            Some(formula_of(prefix, f))
        } else {
            None
        }
}

/// Every formula, in the order of the findings.
pub open spec fn formulae_in(env: EnvView) -> Seq<FormulaView> {
    env.findings(ScannerId::Brew).filter_map(formula_in(env.brew_prefix))
}

fn discover_formulae(env: &ResolveEnv) -> (r: Vec<FormulaOwner>)
    ensures
        r.deep_view() == formulae_in(env@),
{
    let findings = env.findings(ScannerId::Brew);
    let ghost all = findings.deep_view();
    let ghost pick = formula_in(env@.brew_prefix);
    let mut out: Vec<FormulaOwner> = Vec::new();
    let mut i: usize = 0;
    proof {
        assert(all.take(0) =~= seq![]);
        reveal(Seq::filter_map);
        assert(out.deep_view() =~= all.take(0).filter_map(pick));
    }
    while i < findings.len()
        invariant
            i <= findings.len(),
            all == findings.deep_view(),
            pick == formula_in(env@.brew_prefix),
            out.deep_view() == all.take(i as int).filter_map(pick),
        decreases findings.len() - i,
    {
        let f = &findings[i];
        let ghost was = out.deep_view();
        proof {
            assert(all[i as int] == f@);
            all.lemma_filter_map_take_succ(pick, i as int);
        }
        if f.kind == FindingKind::BrewFormula {
            let name = finding_name(f);
            let path = match &f.path {
                Some(p) => Some(p.copy()),
                None => match &env.brew_prefix {
                    Some(p) => Some(p.child("Cellar").child(name.as_str())),
                    None => None,
                },
            };
            let dependents = text_items(&f.meta, "dependents");
            let mut bin_names: Vec<String> = Vec::new();
            bin_names.push(name.clone());
            assert(bin_names.deep_view() =~= seq![name@]);
            let formula = FormulaOwner {
                owner: Owner {
                    key: cat2("formula:", name.as_str()),
                    kind: OwnerKind::Formula,
                    name,
                    path,
                },
                bin_names,
                dependents,
            };
            assert(formula.deep_view() == formula_of(env@.brew_prefix, f@));
            out.push(formula);
            assert(out.deep_view() =~= was.push(formula.deep_view()));
        }
        assert(out.deep_view() =~= all.take(i + 1).filter_map(pick));
        i = i + 1;
    }
    assert(all.take(i as int) =~= all);
    out
}

/// Whether a finding is about an installation of the tool `name`.
pub open spec fn installs(f: FindingView, name: Seq<char>) -> bool {
    f.kind == FindingKind::GlobalTool && name_in(f) == name
}

/// Where a tool is installed.
pub open spec fn install_path(f: FindingView) -> Option<Seq<Seq<char>>> {
    match text_field(f.meta, "install_dir"@) {
        Some(t) => Some(path_of(t)),
        None => match text_field(f.meta, "root"@) {
            Some(t) => Some(path_of(t)),
            None => None,
        },
    }
}

/// The shared store of a tool.
pub open spec fn store_path(f: FindingView) -> Option<Seq<Seq<char>>> {
    match field(f.meta, "manager_extra"@) {
        Some(m) => match text_field(m, "store_dir"@) {
            Some(t) => Some(path_of(t)),
            None => None,
        },
        None => None,
    }
}

/// The first known place of the tool `name`.
pub open spec fn tool_path(findings: Seq<FindingView>, name: Seq<char>) -> Option<Seq<Seq<char>>>
    decreases findings.len(),
{
    if findings.len() == 0 {
        None
    } else {
        match tool_path(findings.drop_last(), name) {
            Some(p) => Some(p),
            None => if installs(findings.last(), name) {
                install_path(findings.last())
            } else {
                None
            },
        }
    }
}

/// The stores of the tool `name`, each once.
pub open spec fn tool_stores(findings: Seq<FindingView>, name: Seq<char>) -> Seq<Seq<Seq<char>>>
    decreases findings.len(),
{
    if findings.len() == 0 {
        seq![]
    } else {
        let before = tool_stores(findings.drop_last(), name);
        match store_path(findings.last()) {
            Some(p) => if installs(findings.last(), name) {
                with_new(before, p)
            } else {
                before
            },
            None => before,
        }
    }
}

/// The tool `name`: several installations are one owner.
pub open spec fn tool_of(findings: Seq<FindingView>, name: Seq<char>) -> ToolView {
    ToolView {
        owner: OwnerView {
            key: "tool:"@ + name,
            kind: OwnerKind::Tool,
            name,
            path: tool_path(findings, name),
        },
        extra_paths: tool_stores(findings, name),
    }
}

/// Whether `s` lists the names of the tools, each once, in order.
pub open spec fn lists_tools(findings: Seq<FindingView>, s: Seq<Seq<char>>) -> bool {
    &&& sorted_keys(s)
    &&& forall|n: Seq<char>| #[trigger]
        s.contains(n) <==> exists|i: int|
            0 <= i < findings.len() && installs(#[trigger] findings[i], n)
}

/// The names of the tools, each once, in order.
pub open spec fn tool_names(findings: Seq<FindingView>) -> Seq<Seq<char>> {
    choose|s: Seq<Seq<char>>| lists_tools(findings, s)
}

/// Every tool, by name.
pub open spec fn tools_in(env: EnvView) -> Seq<ToolView> {
    let findings = env.findings(ScannerId::Tools);
    let names = tool_names(findings);
    Seq::new(names.len(), |i: int| tool_of(findings, names[i]))
}

fn sorted_tool_names(findings: &[Finding]) -> (r: Vec<String>)
    ensures
        r.deep_view() == tool_names(findings.deep_view()),
{
    let ghost all = findings.deep_view();
    let mut names: Vec<String> = Vec::new();
    let mut i: usize = 0;
    while i < findings.len()
        invariant
            i <= findings.len(),
            all == findings.deep_view(),
            sorted_keys(names.deep_view()),
            forall|n: Seq<char>| #[trigger]
                names.deep_view().contains(n) <==> exists|j: int|
                    0 <= j < i && installs(#[trigger] all[j], n),
        decreases findings.len() - i,
    {
        let f = &findings[i];
        let ghost was = names.deep_view();
        assert(all[i as int] == f@);
        if f.kind == FindingKind::GlobalTool {
            let name = finding_name(f);
            insert_key(&mut names, name.as_str());
            proof {
                let now = names.deep_view();
                assert forall|n: Seq<char>| #[trigger] now.contains(n) <==> exists|j: int|
                    0 <= j < i + 1 && installs(#[trigger] all[j], n) by {
                    assert(now.to_set().contains(n) <==> now.contains(n));
                    assert(was.to_set().contains(n) <==> was.contains(n));
                    if n == name@ {
                        assert(installs(all[i as int], n));
                    }
                }
            }
        }
        i = i + 1;
    }
    proof {
        let s = names.deep_view();
        let t = tool_names(all);
        assert(lists_tools(all, s));
        assert(lists_tools(all, t));
        assert forall|n: Seq<char>| #[trigger] s.to_set().contains(n) <==> t.to_set().contains(n) by {
            assert(s.contains(n) <==> t.contains(n));
        }
        assert(s.to_set() =~= t.to_set());
        lemma_sorted_keys_unique(s, t);
    }
    names
}

fn path_in(d: &Doc, key: &str) -> (r: Option<FilePath>)
    ensures
        r.deep_view() == (match text_field(d@, key@) {
            Some(t) => Some(path_of(t)),
            None => None,
        }),
{
    match d.text(key) {
        Some(t) => Some(FilePath::from_text(t)),
        None => None,
    }
}

fn has_path(list: &Vec<FilePath>, p: &FilePath) -> (r: bool)
    ensures
        r == list.deep_view().contains(p@),
{
    let mut i: usize = 0;
    while i < list.len()
        invariant
            i <= list.len(),
            forall|j: int| 0 <= j < i ==> #[trigger] list.deep_view()[j] != p@,
        decreases list.len() - i,
    {
        if list[i].same(p) {
            assert(list.deep_view()[i as int] == p@);
            return true;
        }
        assert(list.deep_view()[i as int] != p@);
        i = i + 1;
    }
    false
}

fn build_tool(findings: &[Finding], name: &str) -> (r: ToolOwner)
    ensures
        r.deep_view() == tool_of(findings.deep_view(), name@),
{
    let ghost all = findings.deep_view();
    let mut path: Option<FilePath> = None;
    let mut extra_paths: Vec<FilePath> = Vec::new();
    let mut i: usize = 0;
    assert(extra_paths.deep_view() =~= tool_stores(all.take(0), name@));
    while i < findings.len()
        invariant
            i <= findings.len(),
            all == findings.deep_view(),
            path.deep_view() == tool_path(all.take(i as int), name@),
            extra_paths.deep_view() == tool_stores(all.take(i as int), name@),
        decreases findings.len() - i,
    {
        let f = &findings[i];
        proof {
            assert(all[i as int] == f@);
            assert(all.take(i + 1).drop_last() =~= all.take(i as int));
            assert(all.take(i + 1).last() == f@);
        }
        let here = f.kind == FindingKind::GlobalTool && same(finding_name(f).as_str(), name);
        if here {
            if path.is_none() {
                path = match path_in(&f.meta, "install_dir") {
                    Some(p) => Some(p),
                    None => path_in(&f.meta, "root"),
                };
            }
            let store = match f.meta.get("manager_extra") {
                Some(m) => path_in(m, "store_dir"),
                None => None,
            };
            assert(store.deep_view() == store_path(f@));
            if let Some(p) = store {
                if !has_path(&extra_paths, &p) {
                    let ghost was = extra_paths.deep_view();
                    extra_paths.push(p);
                    assert(extra_paths.deep_view() =~= was.push(p@));
                }
            }
        }
        i = i + 1;
    }
    assert(all.take(i as int) =~= all);
    ToolOwner {
        owner: Owner {
            key: cat2("tool:", name),
            kind: OwnerKind::Tool,
            name: name.to_owned(),
            path,
        },
        extra_paths,
    }
}

fn discover_tools(env: &ResolveEnv) -> (r: Vec<ToolOwner>)
    ensures
        r.deep_view() == tools_in(env@),
{
    let findings = env.findings(ScannerId::Tools);
    let names = sorted_tool_names(findings);
    let ghost want = tools_in(env@);
    let mut out: Vec<ToolOwner> = Vec::new();
    let mut i: usize = 0;
    while i < names.len()
        invariant
            i <= names.len(),
            want == tools_in(env@),
            findings.deep_view() == env@.findings(ScannerId::Tools),
            names.deep_view() == tool_names(findings.deep_view()),
            out.deep_view() =~= want.take(i as int),
        decreases names.len() - i,
    {
        let ghost was = out.deep_view();
        assert(names.deep_view()[i as int] == names@[i as int]@);
        let tool = build_tool(findings, names[i].as_str());
        assert(tool.deep_view() == want[i as int]);
        out.push(tool);
        assert(out.deep_view() =~= was.push(tool.deep_view()));
        i = i + 1;
    }
    assert(want.take(i as int) =~= want);
    out
}

/// Homebrew itself, where its place is known or it has installed something.
pub open spec fn homebrew_in(env: EnvView) -> Option<OwnerView> {
    if env.brew_prefix is Some || exists|i: int|
        0 <= i < env.findings(ScannerId::Brew).len() && ((#[trigger] env.findings(
            ScannerId::Brew,
        )[i]).kind == FindingKind::BrewFormula || env.findings(ScannerId::Brew)[i].kind
            == FindingKind::BrewCask) {
        Some(
            OwnerView {
                key: "homebrew"@,
                kind: OwnerKind::Homebrew,
                name: "Homebrew"@,
                path: env.brew_prefix,
            },
        )
    } else {
        None
    }
}

fn discover_homebrew(env: &ResolveEnv) -> (r: Option<Owner>)
    ensures
        r.deep_view() == homebrew_in(env@),
{
    let findings = env.findings(ScannerId::Brew);
    let ghost all = findings.deep_view();
    let mut used = false;
    let mut i: usize = 0;
    while i < findings.len()
        invariant
            i <= findings.len(),
            all == findings.deep_view(),
            used <==> exists|j: int|
                0 <= j < i && ((#[trigger] all[j]).kind == FindingKind::BrewFormula || all[j].kind
                    == FindingKind::BrewCask),
        decreases findings.len() - i,
    {
        assert(all[i as int] == findings@[i as int]@);
        if findings[i].kind == FindingKind::BrewFormula || findings[i].kind
            == FindingKind::BrewCask {
            used = true;
        }
        i = i + 1;
    }
    if env.brew_prefix.is_none() && !used {
        return None;
    }
    Some(
        Owner {
            key: "homebrew".to_owned(),
            kind: OwnerKind::Homebrew,
            name: "Homebrew".to_owned(),
            path: copy_opt_path(&env.brew_prefix),
        },
    )
}

/// Every owner on the app axis.
pub open spec fn owners_in(env: EnvView) -> OwnersView {
    OwnersView {
        apps: apps_in(env),
        formulae: formulae_in(env),
        tools: tools_in(env),
        homebrew: homebrew_in(env),
        agent: env.agent,
    }
}

/// Find every owner on the app axis.
pub fn discover(env: &ResolveEnv) -> (r: Owners)
    ensures
        r@ == owners_in(env@),
{
    Owners {
        apps: discover_apps(env),
        formulae: discover_formulae(env),
        tools: discover_tools(env),
        homebrew: discover_homebrew(env),
        agent: env.agent,
    }
}

} // verus!
