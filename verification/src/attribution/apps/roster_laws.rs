//! What holds of the owners that sections find: apps, their helpers and casks, and tools.

use vstd::prelude::*;

use crate::attribution::accounting::{lemma_with_path, with_path};
use crate::attribution::model::{EnvView, OwnerKind};
use crate::attribution::path_laws::law_paths_read_back_from_their_spelling;
use crate::attribution::projects::discovery_laws::single_name;
use crate::doc::{field, list_of, DocView};
use crate::fspath::{file_name, joined, path_of, path_text, root, stem_of, under};
use crate::order::{chars_lt, lemma_chars_lt_total, lemma_chars_lt_transitive, sorted_keys};
use crate::scan::{FindingKind, FindingView, ScannerId};
use crate::seqs::lemma_picked;
use crate::text::ends;

use super::owners::{
    app_of, app_paths, app_roots, cask_token, casks_of, first_about, helper_id, install_path,
    installs, lists_apps, lists_tools, name_in, names_path, outer_app, owners_in, root_over,
    store_path, tool_names, tool_of, tool_path, tool_stores, top_path,
};

verus! {

proof fn lemma_apps_listed(roots: Seq<Seq<Seq<char>>>, findings: Seq<FindingView>) -> (s: Seq<
    Seq<Seq<char>>,
>)
    ensures
        lists_apps(roots, findings, s),
    decreases findings.len(),
{
    if findings.len() == 0 {
        Seq::empty()
    } else {
        let f = findings.drop_last();
        let z = findings.last();
        let t = lemma_apps_listed(roots, f);
        let s = match top_path(roots, z) {
            Some(p) => {
                lemma_with_path(t, p);
                with_path(t, p)
            },
            None => t,
        };
        assert forall|p: Seq<Seq<char>>| #[trigger] s.contains(p) <==> exists|i: int|
            0 <= i < findings.len() && top_path(roots, #[trigger] findings[i]) == Some(p) by {
            if t.contains(p) {
                let i = choose|i: int|
                    0 <= i < f.len() && top_path(roots, #[trigger] f[i]) == Some(p);
                assert(findings[i] == f[i]);
            }
            if top_path(roots, z) == Some(p) {
                assert(findings[findings.len() - 1] == z);
            }
            if exists|i: int|
                0 <= i < findings.len() && top_path(roots, #[trigger] findings[i]) == Some(p) {
                let i = choose|i: int|
                    0 <= i < findings.len() && top_path(roots, #[trigger] findings[i]) == Some(p);
                if i < f.len() {
                    assert(f[i] == findings[i]);
                    assert(t.contains(p));
                }
            }
        }
        s
    }
}

proof fn lemma_first_about(
    roots: Seq<Seq<Seq<char>>>,
    findings: Seq<FindingView>,
    p: Seq<Seq<char>>,
    i: int,
)
    requires
        0 <= i < findings.len(),
        top_path(roots, findings[i]) == Some(p),
        forall|j: int| 0 <= j < i ==> top_path(roots, #[trigger] findings[j]) != Some(p),
    ensures
        first_about(roots, findings, p) == findings[i],
    decreases i,
{
    if i > 0 {
        assert(top_path(roots, findings[0]) != Some(p));
        let t = findings.skip(1);
        assert(t[i - 1] == findings[i]);
        assert forall|j: int| 0 <= j < i - 1 implies top_path(roots, #[trigger] t[j]) != Some(
            p,
        ) by {
            assert(t[j] == findings[j + 1]);
        }
        lemma_first_about(roots, t, p, i - 1);
    }
}

/// Whether a path is that of an app in one of the places where apps are installed: in it, or in a
/// directory of it.
pub open spec fn app_place(home: Seq<Seq<char>>, at: Seq<Seq<char>>) -> bool {
    outer_app(app_roots(home), at) == Some(at)
}

proof fn lemma_applications()
    ensures
        path_of("/Applications"@) == seq![root(), "Applications"@],
        path_of("/System/Applications"@) == seq![root(), "System"@, "Applications"@],
        path_of("/System/Applications/Utilities"@) == seq![
            root(),
            "System"@,
            "Applications"@,
            "Utilities"@,
        ],
{
    reveal_strlit("/Applications");
    reveal_strlit("/System/Applications");
    reveal_strlit("/System/Applications/Utilities");
    reveal_strlit("System");
    reveal_strlit("Applications");
    reveal_strlit("Utilities");
    let a = seq!["Applications"@];
    let b = seq!["System"@, "Applications"@];
    let c = seq!["System"@, "Applications"@, "Utilities"@];
    assert("System"@.len() == 6 && "Applications"@.len() == 12 && "Utilities"@.len() == 9);
    assert(seq!['.'].len() == 1);
    assert(crate::attribution::path_laws::single_names(a));
    assert(crate::attribution::path_laws::single_names(b));
    assert(crate::attribution::path_laws::single_names(c));
    law_paths_read_back_from_their_spelling(a);
    law_paths_read_back_from_their_spelling(b);
    law_paths_read_back_from_their_spelling(c);
    assert((seq![root()] + a).skip(1) =~= a);
    assert((seq![root()] + b).skip(1) =~= b);
    assert((seq![root()] + c).skip(1) =~= c);
    assert(b.skip(1) =~= a);
    assert(c.skip(1) =~= seq!["Applications"@, "Utilities"@]);
    assert(c.skip(1).skip(1) =~= seq!["Utilities"@]);
    reveal_with_fuel(crate::fspath::slashed, 4);
    assert(path_text(seq![root()] + a) =~= "/Applications"@);
    assert(path_text(seq![root()] + b) =~= "/System/Applications"@);
    assert(path_text(seq![root()] + c) =~= "/System/Applications/Utilities"@);
    assert(seq![root()] + a =~= seq![root(), "Applications"@]);
    assert(seq![root()] + b =~= seq![root(), "System"@, "Applications"@]);
    assert(seq![root()] + c =~= seq![root(), "System"@, "Applications"@, "Utilities"@]);
}

/// A bundle in `/Applications`, or in a directory of it that is no bundle, is in the place of an app; what
/// lies in a bundle there is not, but the bundle is the app around it.
pub proof fn law_places_of_apps(
    home: Seq<Seq<char>>,
    vendor: Seq<char>,
    name: Seq<char>,
    more: Seq<Seq<char>>,
)
    requires
        ".app"@.is_suffix_of(name),
        !".app"@.is_suffix_of(vendor),
        single_name(vendor),
    ensures
        ({
            let a = seq![root(), "Applications"@, name];
            let b = seq![root(), "Applications"@, vendor, name];
            &&& app_place(home, a)
            &&& app_place(home, b)
            &&& outer_app(app_roots(home), a + more) == Some(a)
            &&& outer_app(app_roots(home), b + more) == Some(b)
            &&& more.len() > 0 ==> !app_place(home, a + more) && !app_place(home, b + more)
        }),
{
    let a = seq![root(), "Applications"@, name];
    let b = seq![root(), "Applications"@, vendor, name];
    lemma_outer(home, a, more, name);
    lemma_outer(home, a, seq![], name);
    if vendor == root() {
        assert(vendor[0] == '/');
    }
    lemma_outer_vendor(home, b, more, vendor, name);
    lemma_outer_vendor(home, b, seq![], vendor, name);
    assert(a + Seq::<Seq<char>>::empty() =~= a);
    assert(b + Seq::<Seq<char>>::empty() =~= b);
    if more.len() > 0 {
        assert((a + more).len() > a.len());
        assert((b + more).len() > b.len());
    }
}

proof fn lemma_over(home: Seq<Seq<char>>, p: Seq<Seq<char>>)
    requires
        p.len() >= 2,
        p[0] == root(),
        p[1] == "Applications"@,
    ensures
        root_over(app_roots(home), p) == Some(seq![root(), "Applications"@]),
{
    lemma_applications();
    reveal_strlit("System");
    reveal_strlit("Applications");
    assert("System"@.len() == 6 && "Applications"@.len() == 12);
    let r = app_roots(home);
    assert(r[2] == seq![root(), "Applications"@]);
    assert(p.take(2) =~= r[2]);
    if under(p, r[0]) {
        assert(p.take(4)[1] == "System"@);
    }
    if under(p, r[1]) {
        assert(p.take(3)[1] == "System"@);
    }
    assert(r.skip(1)[0] == r[1]);
    assert(r.skip(1).skip(1)[0] == r[2]);
    reveal_with_fuel(root_over, 4);
}

proof fn lemma_outer(home: Seq<Seq<char>>, a: Seq<Seq<char>>, more: Seq<Seq<char>>, name: Seq<char>)
    requires
        a == seq![root(), "Applications"@, name],
        ".app"@.is_suffix_of(name),
    ensures
        outer_app(app_roots(home), a + more) == Some(a),
{
    let p = a + more;
    lemma_over(home, p);
    lemma_bundle_name(name);
    let rel = p.skip(2);
    assert(rel[0] == name);
    assert(rel.take(1) =~= seq![name]);
    assert(joined(seq![root(), "Applications"@], seq![name]) =~= a);
}

proof fn lemma_outer_vendor(
    home: Seq<Seq<char>>,
    b: Seq<Seq<char>>,
    more: Seq<Seq<char>>,
    vendor: Seq<char>,
    name: Seq<char>,
)
    requires
        b == seq![root(), "Applications"@, vendor, name],
        ".app"@.is_suffix_of(name),
        !".app"@.is_suffix_of(vendor),
        vendor != root(),
        vendor != crate::fspath::dot(),
    ensures
        outer_app(app_roots(home), b + more) == Some(b),
{
    let p = b + more;
    lemma_over(home, p);
    lemma_bundle_name(name);
    let rel = p.skip(2);
    assert(rel[0] == vendor && rel[1] == name);
    if ends(vendor, ".app"@) {
        assert(".app"@ =~= vendor.subrange(vendor.len() - ".app"@.len(), vendor.len() as int));
    }
    assert(rel.take(2) =~= seq![vendor, name]);
    assert(joined(seq![root(), "Applications"@], seq![vendor, name]) =~= b);
}

proof fn lemma_bundle_name(name: Seq<char>)
    requires
        ".app"@.is_suffix_of(name),
    ensures
        ends(name, ".app"@),
        name != root(),
        name != crate::fspath::dot(),
{
    reveal_strlit(".app");
    assert(name.skip(name.len() - ".app"@.len()) =~= ".app"@);
    assert(".app"@.len() == 4);
    assert(root().len() == 1 && crate::fspath::dot().len() == 1);
}

/// An app that is found in its place is an owner: under the bundle identifier that the first finding on it
/// gives, else under its path, and with the name of its bundle without the ending. What is found in it
/// gives it further identifiers, and the casks that list its path are its casks.
pub proof fn law_apps_are_owners(
    env: EnvView,
    i: int,
    at: Seq<Seq<char>>,
    name: Seq<char>,
    h: int,
    c: int,
    id: Seq<char>,
)
    requires
        app_place(env.home, at),
        0 <= i < env.findings(ScannerId::Apps).len(),
        env.findings(ScannerId::Apps)[i].path == Some(at),
        forall|j: int|
            0 <= j < i ==> (#[trigger] env.findings(ScannerId::Apps)[j]).path != Some(at),
    ensures
        exists|n: int|
            0 <= n < owners_in(env).apps.len() && {
                let a = #[trigger] owners_in(env).apps[n];
                let f = env.findings(ScannerId::Apps)[i];
                let helper = env.findings(ScannerId::Apps)[h];
                let cask = env.findings(ScannerId::Brew)[c];
                &&& a.owner.path == Some(at)
                &&& a.owner.kind == OwnerKind::App
                &&& field(f.meta, "bundle_id"@) == Some(DocView::Text(id)) ==> a.owner.key == id
                &&& field(f.meta, "bundle_id"@) is None ==> a.owner.key == path_text(at)
                &&& file_name(at) == Some(name) ==> a.owner.name == stem_of(name)
                &&& 0 <= h < env.findings(ScannerId::Apps).len() && helper.path is Some
                    && helper.path->0 != at && outer_app(app_roots(env.home), helper.path->0)
                    == Some(at) && field(helper.meta, "bundle_id"@) == Some(DocView::Text(id))
                    ==> a.aliases.contains(id)
                &&& 0 <= c < env.findings(ScannerId::Brew).len() && cask.kind
                    == FindingKind::BrewCask && names_path(
                    list_of(field(cask.meta, "app_paths"@)),
                    at,
                ) && field(cask.meta, "token"@) == Some(DocView::Text(id)) ==> a.cask_names.contains(
                    id,
                )
            },
{
    let roots = app_roots(env.home);
    let fs = env.findings(ScannerId::Apps);
    let brew = env.findings(ScannerId::Brew);
    let s = lemma_apps_listed(roots, fs);
    let paths = app_paths(roots, fs);
    assert(lists_apps(roots, fs, paths));
    assert(top_path(roots, fs[i]) == Some(at));
    assert(paths.contains(at));
    let n = choose|n: int| 0 <= n < paths.len() && paths[n] == at;
    assert forall|j: int| 0 <= j < i implies top_path(roots, #[trigger] fs[j]) != Some(at) by {
        assert(fs[j].path != Some(at));
    }
    lemma_first_about(roots, fs, at, i);
    let a = owners_in(env).apps[n];
    assert(a == app_of(roots, fs, brew, at));
    let g = helper_id(roots, at);
    if 0 <= h < fs.len() && g(fs[h]) is Some {
        let k = lemma_picked(fs, g, h);
        assert(a.aliases[k] == g(fs[h])->0);
    }
    if 0 <= c < brew.len() && brew[c].kind == FindingKind::BrewCask && names_path(
        list_of(field(brew[c].meta, "app_paths"@)),
        at,
    ) {
        lemma_cask(brew, at, c);
    }
}

proof fn lemma_cask(brew: Seq<FindingView>, p: Seq<Seq<char>>, c: int)
    requires
        0 <= c < brew.len(),
        brew[c].kind == FindingKind::BrewCask,
        names_path(list_of(field(brew[c].meta, "app_paths"@)), p),
    ensures
        casks_of(brew, p).contains(cask_token(brew[c])),
    decreases brew.len(),
{
    let f = brew.drop_last();
    let before = casks_of(f, p);
    let all = casks_of(brew, p);
    if c < f.len() {
        assert(f[c] == brew[c]);
        lemma_cask(f, p, c);
        let k = choose|k: int| 0 <= k < before.len() && before[k] == cask_token(brew[c]);
        assert(all[k] == before[k]);
    } else if !before.contains(cask_token(brew[c])) {
        assert(all[before.len() as int] == cask_token(brew[c]));
    }
}

/// An owner that is an app was found in the place of one.
pub proof fn law_owners_that_are_apps_were_found(env: EnvView, n: int)
    requires
        0 <= n < owners_in(env).apps.len(),
    ensures
        exists|i: int|
            0 <= i < env.findings(ScannerId::Apps).len() && (#[trigger] env.findings(
                ScannerId::Apps,
            )[i]).path == owners_in(env).apps[n].owner.path && app_place(
                env.home,
                owners_in(env).apps[n].owner.path->0,
            ),
{
    let roots = app_roots(env.home);
    let fs = env.findings(ScannerId::Apps);
    let s = lemma_apps_listed(roots, fs);
    let paths = app_paths(roots, fs);
    assert(lists_apps(roots, fs, paths));
    assert(paths.contains(paths[n]));
    let i = choose|i: int|
        0 <= i < fs.len() && top_path(roots, #[trigger] fs[i]) == Some(paths[n]);
    assert(fs[i].path == owners_in(env).apps[n].owner.path);
}

proof fn lemma_with_key(s: Seq<Seq<char>>, k: Seq<char>) -> (t: Seq<Seq<char>>)
    requires
        sorted_keys(s),
    ensures
        sorted_keys(t),
        forall|q: Seq<char>| #[trigger] t.contains(q) <==> s.contains(q) || q == k,
    decreases s.len(),
{
    if s.len() == 0 {
        let t = seq![k];
        assert(t[0] == k);
        t
    } else if s.last() == k {
        assert(s[s.len() - 1] == k);
        s
    } else if chars_lt(s.last(), k) {
        let t = s.push(k);
        assert forall|i: int, j: int| 0 <= i < j < t.len() implies chars_lt(
            #[trigger] t[i],
            #[trigger] t[j],
        ) by {
            if j == s.len() && i < s.len() - 1 {
                assert(chars_lt(s[i], s[s.len() - 1]));
                lemma_chars_lt_transitive(s[i], s.last(), k);
            }
        }
        assert forall|q: Seq<char>| #[trigger] t.contains(q) <==> s.contains(q) || q == k by {
            if s.contains(q) {
                let i = choose|i: int| 0 <= i < s.len() && s[i] == q;
                assert(t[i] == q);
            }
            assert(t[s.len() as int] == k);
        }
        t
    } else {
        lemma_chars_lt_total(s.last(), k);
        let f = s.drop_last();
        let u = lemma_with_key(f, k);
        let t = u.push(s.last());
        assert forall|i: int, j: int| 0 <= i < j < t.len() implies chars_lt(
            #[trigger] t[i],
            #[trigger] t[j],
        ) by {
            if j == u.len() {
                assert(u.contains(u[i]));
                if u[i] != k {
                    let m = choose|m: int| 0 <= m < f.len() && f[m] == u[i];
                    assert(chars_lt(s[m], s[s.len() - 1]));
                }
            }
        }
        assert forall|q: Seq<char>| #[trigger] t.contains(q) <==> s.contains(q) || q == k by {
            if t.contains(q) {
                let i = choose|i: int| 0 <= i < t.len() && t[i] == q;
                if i < u.len() {
                    assert(u.contains(q));
                    if f.contains(q) {
                        let m = choose|m: int| 0 <= m < f.len() && f[m] == q;
                        assert(s[m] == q);
                    }
                } else {
                    assert(s[s.len() - 1] == q);
                }
            }
            if s.contains(q) || q == k {
                if q == s.last() {
                    assert(t[u.len() as int] == q);
                } else {
                    if s.contains(q) {
                        let m = choose|m: int| 0 <= m < s.len() && s[m] == q;
                        assert(f[m] == q);
                    }
                    assert(u.contains(q));
                    let i = choose|i: int| 0 <= i < u.len() && u[i] == q;
                    assert(t[i] == q);
                }
            }
        }
        t
    }
}

proof fn lemma_tools_listed(findings: Seq<FindingView>) -> (s: Seq<Seq<char>>)
    ensures
        lists_tools(findings, s),
    decreases findings.len(),
{
    if findings.len() == 0 {
        Seq::empty()
    } else {
        let f = findings.drop_last();
        let z = findings.last();
        let t = lemma_tools_listed(f);
        let s = if z.kind == FindingKind::GlobalTool {
            lemma_with_key(t, name_in(z))
        } else {
            t
        };
        assert forall|n: Seq<char>| #[trigger] s.contains(n) <==> exists|i: int|
            0 <= i < findings.len() && installs(#[trigger] findings[i], n) by {
            if t.contains(n) {
                let i = choose|i: int| 0 <= i < f.len() && installs(#[trigger] f[i], n);
                assert(installs(findings[i], n));
            }
            if installs(z, n) {
                assert(installs(findings[findings.len() - 1], n));
            }
            if exists|i: int| 0 <= i < findings.len() && installs(#[trigger] findings[i], n) {
                let i = choose|i: int|
                    0 <= i < findings.len() && installs(#[trigger] findings[i], n);
                if i < f.len() {
                    assert(installs(f[i], n));
                    assert(t.contains(n));
                }
            }
        }
        s
    }
}

/// A tool that is found is an owner, under `tool:` and its name; it lies where the first of its findings
/// that says so says, and each store that one of them names is its own too.
pub proof fn law_tools_are_owners(
    env: EnvView,
    i: int,
    name: Seq<char>,
    dir: Seq<char>,
    e: int,
    extra: DocView,
    store: Seq<char>,
)
    requires
        0 <= i < env.findings(ScannerId::Tools).len(),
        env.findings(ScannerId::Tools)[i].kind == FindingKind::GlobalTool,
        field(env.findings(ScannerId::Tools)[i].meta, "name"@) == Some(DocView::Text(name)),
        field(env.findings(ScannerId::Tools)[i].meta, "install_dir"@) == Some(DocView::Text(dir)),
        forall|j: int|
            0 <= j < i ==> (#[trigger] env.findings(ScannerId::Tools)[j]).kind
                != FindingKind::GlobalTool || name_in(env.findings(ScannerId::Tools)[j]) != name,
    ensures
        exists|n: int|
            0 <= n < owners_in(env).tools.len() && {
                let t = #[trigger] owners_in(env).tools[n];
                let f = env.findings(ScannerId::Tools)[e];
                &&& t.owner.key == "tool:"@ + name
                &&& t.owner.kind == OwnerKind::Tool
                &&& t.owner.name == name
                &&& t.owner.path == Some(path_of(dir))
                &&& 0 <= e < env.findings(ScannerId::Tools).len() && f.kind
                    == FindingKind::GlobalTool && name_in(f) == name && field(
                    f.meta,
                    "manager_extra"@,
                ) == Some(extra) && field(extra, "store_dir"@) == Some(DocView::Text(store))
                    ==> t.extra_paths.contains(path_of(store))
            },
{
    let fs = env.findings(ScannerId::Tools);
    let s = lemma_tools_listed(fs);
    let names = tool_names(fs);
    assert(lists_tools(fs, names));
    assert(installs(fs[i], name));
    assert(names.contains(name));
    let n = choose|n: int| 0 <= n < names.len() && names[n] == name;
    let t = owners_in(env).tools[n];
    assert(t == tool_of(fs, name));
    assert forall|j: int| 0 <= j < i implies !installs(#[trigger] fs[j], name) by {
        assert(fs[j].kind != FindingKind::GlobalTool || name_in(fs[j]) != name);
    }
    lemma_tool_path(fs, name, i, path_of(dir));
    if 0 <= e < fs.len() && installs(fs[e], name) && store_path(fs[e]) is Some {
        lemma_tool_store(fs, name, e);
    }
}

proof fn lemma_tool_path(fs: Seq<FindingView>, name: Seq<char>, i: int, at: Seq<Seq<char>>)
    requires
        0 <= i < fs.len(),
        installs(fs[i], name),
        install_path(fs[i]) == Some(at),
        forall|j: int| 0 <= j < i ==> !installs(#[trigger] fs[j], name),
    ensures
        tool_path(fs, name) == Some(at),
    decreases fs.len(),
{
    let f = fs.drop_last();
    if i < f.len() {
        assert(f[i] == fs[i]);
        assert forall|j: int| 0 <= j < i implies !installs(#[trigger] f[j], name) by {
            assert(f[j] == fs[j]);
        }
        lemma_tool_path(f, name, i, at);
    } else {
        lemma_no_tool(f, name);
    }
}

proof fn lemma_no_tool(fs: Seq<FindingView>, name: Seq<char>)
    requires
        forall|j: int| 0 <= j < fs.len() ==> !installs(#[trigger] fs[j], name),
    ensures
        tool_path(fs, name) is None,
    decreases fs.len(),
{
    if fs.len() > 0 {
        assert(!installs(fs[fs.len() - 1], name));
        assert forall|j: int| 0 <= j < fs.len() - 1 implies !installs(
            #[trigger] fs.drop_last()[j],
            name,
        ) by {
            assert(fs.drop_last()[j] == fs[j]);
        }
        lemma_no_tool(fs.drop_last(), name);
    }
}

proof fn lemma_tool_store(fs: Seq<FindingView>, name: Seq<char>, e: int)
    requires
        0 <= e < fs.len(),
        installs(fs[e], name),
        store_path(fs[e]) is Some,
    ensures
        tool_stores(fs, name).contains(store_path(fs[e])->0),
    decreases fs.len(),
{
    let f = fs.drop_last();
    let before = tool_stores(f, name);
    let all = tool_stores(fs, name);
    let p = store_path(fs[e])->0;
    if e < f.len() {
        assert(f[e] == fs[e]);
        lemma_tool_store(f, name, e);
        let k = choose|k: int| 0 <= k < before.len() && before[k] == p;
        assert(all[k] == before[k]);
    } else if !before.contains(p) {
        assert(all[before.len() as int] == p);
    }
}

} // verus!
