//! What holds of the names and bundle identifiers that a project's manifests give it.

use vstd::prelude::*;

use crate::attribution::model::EnvView;
use crate::attribution::paths::node_in;
use crate::disk::{DiskView, NodeKind};
use crate::doc::{field, json_document, text_field, text_of, toml_document, DocView};
use crate::fspath::child;
use crate::scan::DirView;
use crate::seqs::lemma_picked;
use crate::text::{
    find_sub, lemma_find_from, lemma_span_is, lines, occurs_at, quotes, starts, trim,
    trim_end_where, trim_start,
};
use crate::text_laws::{
    free_of, law_trim_takes_off_what_is_around, lemma_first_place, lemma_trim_tight, tight,
};

use super::discovery::swept;
use super::names::{
    bin_name, cargo_found, cargo_names, dirs_found, glob_dirs, glob_prefix, globs_dirs,
    has_cargo_toml, listed_glob, manifest_names, package_name, package_names, pbx_value, pnpm_globs,
    project_found, swift_name, swift_names, tree_found, with_ids, with_manifest_names, with_names,
    workspace_names, xcode_all, xcode_found,
};
use super::ProjectView;

verus! {

proof fn lemma_names(names: Seq<Seq<char>>, more: Seq<Seq<char>>)
    ensures
        names.is_prefix_of(with_names(names, more)),
        forall|i: int|
            0 <= i < more.len() && trim(#[trigger] more[i]).len() > 0 ==> with_names(
                names,
                more,
            ).contains(trim(more[i])),
        forall|j: int|
            names.len() <= j < with_names(names, more).len() ==> (#[trigger] with_names(
                names,
                more,
            )[j]).len() > 0 && exists|i: int|
                0 <= i < more.len() && trim(#[trigger] more[i]) == with_names(names, more)[j],
        names.no_duplicates() ==> with_names(names, more).no_duplicates(),
    decreases more.len(),
{
    if more.len() > 0 {
        let f = more.drop_last();
        lemma_names(names, f);
        let a = with_names(names, f);
        let z = trim(more.last());
        let r = with_names(names, more);
        assert(r == a || r == a.push(z));
        assert(names.is_prefix_of(r)) by {
            assert forall|k: int| 0 <= k < names.len() implies names[k] == r[k] by {
                assert(a[k] == a.subrange(0, names.len() as int)[k]);
            }
            assert(names =~= r.subrange(0, names.len() as int));
        }
        if z.len() > 0 && r == a.push(z) {
            assert(r[a.len() as int] == z);
        }
        assert forall|i: int| 0 <= i < more.len() && trim(#[trigger] more[i]).len() > 0 implies r.contains(
            trim(more[i]),
        ) by {
            if i < f.len() {
                assert(f[i] == more[i]);
                let k = choose|k: int| 0 <= k < a.len() && a[k] == trim(f[i]);
                assert(r[k] == a[k]);
            }
        }
        assert forall|j: int| names.len() <= j < r.len() implies (#[trigger] r[j]).len() > 0
            && exists|i: int| 0 <= i < more.len() && trim(#[trigger] more[i]) == r[j] by {
            if j < a.len() {
                assert(r[j] == a[j]);
                let i = choose|i: int| 0 <= i < f.len() && trim(#[trigger] f[i]) == a[j];
                assert(more[i] == f[i]);
            } else {
                assert(trim(more[more.len() - 1]) == r[j]);
            }
        }
    } else {
        assert(names =~= names.subrange(0, names.len() as int));
    }
}

proof fn lemma_ids(ids: Seq<Seq<char>>, more: Seq<Seq<char>>)
    ensures
        ids.is_prefix_of(with_ids(ids, more)),
        forall|i: int|
            0 <= i < more.len() ==> with_ids(ids, more).contains(#[trigger] more[i]),
        ids.no_duplicates() ==> with_ids(ids, more).no_duplicates(),
    decreases more.len(),
{
    if more.len() > 0 {
        let f = more.drop_last();
        lemma_ids(ids, f);
        let a = with_ids(ids, f);
        let r = with_ids(ids, more);
        assert(r == a || r == a.push(more.last()));
        assert(ids.is_prefix_of(r)) by {
            assert forall|k: int| 0 <= k < ids.len() implies ids[k] == r[k] by {
                assert(a[k] == a.subrange(0, ids.len() as int)[k]);
            }
            assert(ids =~= r.subrange(0, ids.len() as int));
        }
        assert forall|i: int| 0 <= i < more.len() implies r.contains(#[trigger] more[i]) by {
            if i < f.len() {
                assert(f[i] == more[i]);
                let k = choose|k: int| 0 <= k < a.len() && a[k] == f[i];
                assert(r[k] == a[k]);
            } else if r != a {
                assert(r[a.len() as int] == more[i]);
            }
        }
    } else {
        assert(ids =~= ids.subrange(0, ids.len() as int));
    }
}

/// The manifests of a project add names and bundle identifiers behind those that it has, and change
/// nothing else of it. None is added twice.
pub proof fn law_manifests_only_add_names(env: EnvView, disk: DiskView, p: ProjectView)
    ensures
        ({
            let r = with_manifest_names(env, disk, p);
            &&& p.names.is_prefix_of(r.names)
            &&& p.bundle_ids.is_prefix_of(r.bundle_ids)
            &&& r.root == p.root
            &&& r.name == p.name
            &&& r.worktrees == p.worktrees
            &&& r.is_git == p.is_git
            &&& p.names.no_duplicates() ==> r.names.no_duplicates()
            &&& p.bundle_ids.no_duplicates() ==> r.bundle_ids.no_duplicates()
            &&& forall|j: int|
                p.names.len() <= j < r.names.len() ==> (#[trigger] r.names[j]).len() > 0
        }),
{
    let found = project_found(env, disk, p.root);
    lemma_names(
        p.names,
        package_names(env, disk, p.root) + found.names + swift_names(disk, p.root),
    );
    lemma_ids(p.bundle_ids, found.ids);
}

proof fn lemma_named(
    env: EnvView,
    disk: DiskView,
    p: ProjectView,
    part: int,
    i: int,
)
    requires
        0 <= part < 3,
        part == 0 ==> 0 <= i < package_names(env, disk, p.root).len() && trim(
            package_names(env, disk, p.root)[i],
        ).len() > 0,
        part == 1 ==> 0 <= i < project_found(env, disk, p.root).names.len() && trim(
            project_found(env, disk, p.root).names[i],
        ).len() > 0,
        part == 2 ==> 0 <= i < swift_names(disk, p.root).len() && trim(
            swift_names(disk, p.root)[i],
        ).len() > 0,
    ensures
        with_manifest_names(env, disk, p).names.contains(
            trim(
                if part == 0 {
                    package_names(env, disk, p.root)[i]
                } else if part == 1 {
                    project_found(env, disk, p.root).names[i]
                } else {
                    swift_names(disk, p.root)[i]
                },
            ),
        ),
{
    let a = package_names(env, disk, p.root);
    let b = project_found(env, disk, p.root).names;
    let c = swift_names(disk, p.root);
    let more = a + b + c;
    lemma_names(p.names, more);
    if part == 0 {
        assert(more[i] == a[i]);
    } else if part == 1 {
        assert(more[a.len() + i] == b[i]);
    } else {
        assert(more[a.len() + b.len() + i] == c[i]);
    }
}

/// A project has the name that its `package.json` gives.
pub proof fn law_a_package_names_its_project(
    env: EnvView,
    disk: DiskView,
    p: ProjectView,
    text: Seq<char>,
    name: Seq<char>,
)
    requires
        disk.head(child(p.root, "package.json"@), 262144) == Some(text),
        json_document(text) is Some,
        field(json_document(text)->0, "name"@) == Some(DocView::Text(name)),
        trim(name).len() > 0,
    ensures
        with_manifest_names(env, disk, p).names.contains(trim(name)),
{
    let d = json_document(text)->0;
    assert(manifest_names(env, disk, p.root, Some(d))[0] == name);
    assert(package_names(env, disk, p.root)[0] == name);
    lemma_named(env, disk, p, 0, 0);
}

proof fn lemma_glob_dirs(env: EnvView, root: Seq<Seq<char>>, globs: Seq<Seq<char>>, g: int, k: int)
    -> (j: int)
    requires
        0 <= g < globs.len(),
        0 <= k < glob_dirs(env.trees, root, globs[g]).len(),
    ensures
        0 <= j < globs_dirs(env.trees, root, globs).len(),
        globs_dirs(env.trees, root, globs)[j] == glob_dirs(env.trees, root, globs[g])[k],
    decreases globs.len(),
{
    let f = globs.drop_last();
    let a = globs_dirs(env.trees, root, f);
    if g == globs.len() - 1 {
        a.len() + k
    } else {
        assert(f[g] == globs[g]);
        lemma_glob_dirs(env, root, f, g, k)
    }
}

/// A project has the names of the packages in its workspaces: of each directory in one that is listed
/// with `/*` behind it, in `package.json` or in `pnpm-workspace.yaml`.
pub proof fn law_a_workspace_names_its_project(
    env: EnvView,
    disk: DiskView,
    p: ProjectView,
    pnpm: bool,
    outer: Seq<char>,
    globs: Seq<Seq<char>>,
    g: int,
    place: Seq<char>,
    node: DirView,
    k: int,
    text: Seq<char>,
    name: Seq<char>,
)
    requires
        pnpm ==> disk.head(child(p.root, "pnpm-workspace.yaml"@), 262144) == Some(outer) && globs
            == pnpm_globs(lines(outer), false),
        !pnpm ==> disk.head(child(p.root, "package.json"@), 262144) == Some(outer) && json_document(
            outer,
        ) is Some && exists|items: Seq<DocView>|
            field(json_document(outer)->0, "workspaces"@) == Some(DocView::List(items))
                && items.len() == globs.len() && forall|i: int|
                0 <= i < globs.len() ==> items[i] == DocView::Text(#[trigger] globs[i]),
        0 <= g < globs.len(),
        globs[g] == place + "/*"@,
        place.len() > 0,
        free_of(place, '*'),
        node_in(env.trees, child(p.root, place)) == Some(node),
        0 <= k < node.children.len(),
        disk.head(
            child(child(child(p.root, place), node.children[k].name), "package.json"@),
            262144,
        ) == Some(text),
        json_document(text) is Some,
        field(json_document(text)->0, "name"@) == Some(DocView::Text(name)),
        trim(name).len() > 0,
    ensures
        with_manifest_names(env, disk, p).names.contains(trim(name)),
{
    reveal_strlit("/*");
    let glob = globs[g];
    let dir = child(p.root, place);
    assert(glob.skip(glob.len() - "/*"@.len()) =~= "/*"@);
    assert(glob.take(glob.len() - "/*"@.len()) =~= place);
    crate::text_laws::lemma_no_place(place, '*');
    assert(glob_prefix(glob) == Some(place));
    let dirs = glob_dirs(env.trees, p.root, glob);
    assert(dirs[k] == child(dir, node.children[k].name));
    let j = lemma_glob_dirs(env, p.root, globs, g, k);
    let all = globs_dirs(env.trees, p.root, globs);
    let i = lemma_picked(all, package_name(disk), j);
    let names = workspace_names(env, disk, p.root, globs);
    assert(names[i] == name);
    if pnpm {
        let m = package_names(env, disk, p.root);
        let at = m.len() - names.len() + i;
        assert(m[at] == name);
        lemma_named(env, disk, p, 0, at);
    } else {
        let d = json_document(outer)->0;
        let items = choose|items: Seq<DocView>|
            field(d, "workspaces"@) == Some(DocView::List(items)) && items.len() == globs.len()
                && forall|i: int|
                0 <= i < globs.len() ==> items[i] == DocView::Text(#[trigger] globs[i]);
        lemma_all_texts(items, globs);
        let first = crate::attribution::apps::linkers::opt_list(text_field(d, "name"@));
        let at = first.len() + i;
        assert(manifest_names(env, disk, p.root, Some(d))[at] == name);
        assert(package_names(env, disk, p.root)[at] == name);
        lemma_named(env, disk, p, 0, at);
    }
}

proof fn lemma_all_texts(items: Seq<DocView>, texts: Seq<Seq<char>>)
    requires
        items.len() == texts.len(),
        forall|i: int| 0 <= i < texts.len() ==> items[i] == DocView::Text(#[trigger] texts[i]),
    ensures
        crate::attribution::apps::owners::texts_of(Some(items)) == texts,
    decreases items.len(),
{
    reveal(Seq::filter_map);
    let f = |d: DocView| text_of(Some(d));
    if items.len() > 0 {
        let a = items.drop_last();
        let b = texts.drop_last();
        assert forall|i: int| 0 <= i < b.len() implies a[i] == DocView::Text(#[trigger] b[i]) by {
            assert(items[i] == DocView::Text(texts[i]));
        }
        lemma_all_texts(a, b);
        assert(items.last() == DocView::Text(texts[texts.len() - 1]));
        assert(items.filter_map(f) =~= a.filter_map(f).push(texts.last()));
        assert(b.push(texts.last()) =~= texts);
    }
}

/// What is listed behind `packages:` is read off, in its order.
pub proof fn law_listed_workspaces(globs: Seq<Seq<char>>)
    requires
        forall|i: int|
            0 <= i < globs.len() ==> tight(#[trigger] globs[i]) && globs[i].len() > 0 && free_of(
                globs[i],
                '"',
            ) && free_of(globs[i], '\''),
    ensures
        pnpm_globs(
            seq!["packages:"@] + Seq::new(globs.len(), |i: int| "  - \""@ + globs[i] + "\""@),
            false,
        ) == globs,
{
    reveal_strlit("packages:");
    let rest = Seq::new(globs.len(), |i: int| "  - \""@ + globs[i] + "\""@);
    let l = seq!["packages:"@] + rest;
    lemma_trim_tight("packages:"@);
    assert(l[0].take("packages:"@.len() as int) =~= "packages:"@);
    assert forall|j: int| 0 <= j < 0 implies crate::text::spaces()(#[trigger] l[0][j]) by {}
    lemma_span_is(l[0], crate::text::spaces(), 0);
    assert(l[0].skip(0) =~= l[0]);
    assert(l.skip(1) =~= rest);
    lemma_listed(globs);
}

proof fn lemma_listed(globs: Seq<Seq<char>>)
    requires
        forall|i: int|
            0 <= i < globs.len() ==> tight(#[trigger] globs[i]) && globs[i].len() > 0 && free_of(
                globs[i],
                '"',
            ) && free_of(globs[i], '\''),
    ensures
        pnpm_globs(Seq::new(globs.len(), |i: int| "  - \""@ + globs[i] + "\""@), true) == globs,
    decreases globs.len(),
{
    let l = Seq::new(globs.len(), |i: int| "  - \""@ + globs[i] + "\""@);
    if globs.len() > 0 {
        let rest = globs.skip(1);
        assert forall|i: int| 0 <= i < rest.len() implies tight(#[trigger] rest[i])
            && rest[i].len() > 0 && free_of(rest[i], '"') && free_of(rest[i], '\'') by {
            assert(rest[i] == globs[i + 1]);
        }
        lemma_listed(rest);
        assert(l.skip(1) =~= Seq::new(rest.len(), |i: int| "  - \""@ + rest[i] + "\""@));
        lemma_listed_line(globs[0]);
        assert(l[0] == "  - \""@ + globs[0] + "\""@);
        assert(seq![globs[0]] + rest =~= globs);
    }
}

proof fn lemma_listed_line(g: Seq<char>)
    requires
        g.len() > 0,
        free_of(g, '"'),
        free_of(g, '\''),
    ensures
        ({
            let t = trim_start("  - \""@ + g + "\""@);
            !starts(t, "packages:"@) && starts(t, "-"@) && listed_glob(t.skip("-"@.len() as int))
                == g
        }),
{
    reveal_strlit("  - \"");
    reveal_strlit("\"");
    reveal_strlit("-");
    reveal_strlit("packages:");
    let quoted = seq!['"'] + g + seq!['"'];
    let body = seq!['-', ' '] + quoted;
    let line = "  - \""@ + g + "\""@;
    law_trim_takes_off_what_is_around(seq![' ', ' '], body, seq![]);
    assert(seq![' ', ' '] + body + seq![] =~= line);
    assert(body + seq![] =~= body);
    assert(trim_start(line) == body);
    assert(body[0] == '-');
    if starts(body, "packages:"@) {
        assert(body.take("packages:"@.len() as int)[0] == body[0]);
    }
    assert(body.take(1) =~= "-"@);
    let tail = body.skip(1);
    law_trim_takes_off_what_is_around(seq![' '], quoted, seq![]);
    assert(seq![' '] + quoted + seq![] =~= tail);
    assert(trim(tail) == quoted);
    assert forall|j: int| 0 <= j < 1 implies quotes()(#[trigger] quoted[j]) by {}
    assert(!quotes()(quoted[1]));
    lemma_span_is(quoted, quotes(), 1);
    let half = quoted.skip(1);
    assert(half.last() == '"');
    assert(half.drop_last() =~= g);
    assert(!quotes()(g.last()));
    assert(trim_end_where(half, quotes()) == trim_end_where(half.drop_last(), quotes()));
    assert(trim_end_where(g, quotes()) == g);
}

/// A crate's name, and the names of its programs, are names of the project in whose root it lies.
pub proof fn law_a_crate_names_its_project(
    env: EnvView,
    disk: DiskView,
    p: ProjectView,
    e: int,
    text: Seq<char>,
    name: Seq<char>,
    bin: Option<int>,
)
    requires
        node_in(env.trees, p.root) is Some,
        disk.list(p.root) is Some,
        0 <= e < disk.list(p.root)->0.len(),
        disk.list(p.root)->0[e] == ("Cargo.toml"@, NodeKind::File),
        disk.head(child(p.root, "Cargo.toml"@), 262144) == Some(text),
        toml_document(text) is Some,
        bin is None ==> field(toml_document(text)->0, "package"@) is Some && field(
            field(toml_document(text)->0, "package"@)->0,
            "name"@,
        ) == Some(DocView::Text(name)),
        bin is Some ==> exists|bins: Seq<DocView>|
            field(toml_document(text)->0, "bin"@) == Some(DocView::List(bins)) && 0 <= bin->0
                < bins.len() && #[trigger] field(bins[bin->0], "name"@) == Some(
                DocView::Text(name),
            ),
        trim(name).len() > 0,
    ensures
        with_manifest_names(env, disk, p).names.contains(trim(name)),
{
    let d = toml_document(text)->0;
    let l = disk.list(p.root)->0;
    assert(l[e].1 != NodeKind::Dir && l[e].0 == "Cargo.toml"@);
    assert(has_cargo_toml(l));
    let names = cargo_names(d);
    let i: int = if bin is None {
        0
    } else {
        let bins = choose|bins: Seq<DocView>|
            field(d, "bin"@) == Some(DocView::List(bins)) && 0 <= bin->0 < bins.len()
                && #[trigger] field(bins[bin->0], "name"@) == Some(DocView::Text(name));
        let k = lemma_picked(bins, bin_name(), bin->0);
        names.len() - bins.filter_map(bin_name()).len() + k
    };
    assert(names[i] == name);
    let found = project_found(env, disk, p.root);
    assert(cargo_found(disk, p.root).names == names);
    assert(found.names[i] == name);
    lemma_named(env, disk, p, 1, i);
}

proof fn lemma_xcode(disk: DiskView, at: Seq<Seq<char>>, dirs: Seq<DirView>, k: int, i: int) -> (j:
    int)
    requires
        0 <= k < dirs.len(),
        0 <= i < xcode_found(disk, at, dirs[k].name).ids.len(),
    ensures
        0 <= j < xcode_all(disk, at, dirs).ids.len(),
        xcode_all(disk, at, dirs).ids[j] == xcode_found(disk, at, dirs[k].name).ids[i],
    decreases dirs.len(),
{
    let f = dirs.drop_last();
    if k == dirs.len() - 1 {
        xcode_all(disk, at, f).ids.len() + i
    } else {
        assert(f[k] == dirs[k]);
        lemma_xcode(disk, at, f, k, i)
    }
}

/// A bundle identifier that an Xcode project in the root sets is one of the project's.
pub proof fn law_an_xcode_project_gives_its_bundle_ids(
    env: EnvView,
    disk: DiskView,
    p: ProjectView,
    node: DirView,
    k: int,
    text: Seq<char>,
    n: int,
    id: Seq<char>,
)
    requires
        node_in(env.trees, p.root) == Some(node),
        0 <= k < node.children.len(),
        ".xcodeproj"@.is_suffix_of(node.children[k].name),
        disk.head(child(child(p.root, node.children[k].name), "project.pbxproj"@), 262144) == Some(
            text,
        ),
        0 <= n < lines(text).len(),
        pbx_value("PRODUCT_BUNDLE_IDENTIFIER"@)(lines(text)[n]) == Some(id),
    ensures
        with_manifest_names(env, disk, p).bundle_ids.contains(id),
{
    let name = node.children[k].name;
    assert(name.skip(name.len() - ".xcodeproj"@.len()) =~= ".xcodeproj"@);
    let f = pbx_value("PRODUCT_BUNDLE_IDENTIFIER"@);
    let i = lemma_picked(lines(text), f, n);
    let j = lemma_xcode(disk, p.root, node.children, k, i);
    let found = project_found(env, disk, p.root);
    assert(cargo_found(disk, p.root).ids.len() == 0);
    assert(found.ids[j] == id);
    lemma_ids(p.bundle_ids, found.ids);
}

/// What a directory's own manifests say is said of the project above it too, where the directory can be
/// come to by names that are looked into and lies no more than four levels down.
pub proof fn law_manifests_below_count(
    env: EnvView,
    disk: DiskView,
    at: Seq<Seq<char>>,
    node: DirView,
    deeper: nat,
    k: int,
)
    requires
        deeper > 0,
        0 <= k < node.children.len(),
        swept(env.skip_dirs, node.children[k].name),
    ensures
        ({
            let d = node.children[k];
            let all = tree_found(env, disk, at, node, deeper);
            let below = tree_found(env, disk, child(at, d.name), d, (deeper - 1) as nat);
            &&& forall|i: int|
                0 <= i < below.names.len() ==> all.names.contains(#[trigger] below.names[i])
            &&& forall|i: int|
                0 <= i < below.ids.len() ==> all.ids.contains(#[trigger] below.ids[i])
        }),
        forall|root: Seq<Seq<char>>|
            node_in(env.trees, root) is Some ==> #[trigger] project_found(env, disk, root)
                == tree_found(env, disk, root, node_in(env.trees, root)->0, 4),
{
    let d = node.children[k];
    let below = tree_found(env, disk, child(at, d.name), d, (deeper - 1) as nat);
    let dirs = dirs_found(env, disk, at, node.children, deeper);
    lemma_below(env, disk, at, node.children, deeper, k);
    let all = tree_found(env, disk, at, node, deeper);
    let c = cargo_found(disk, at);
    let x = xcode_all(disk, at, node.children);
    assert forall|i: int| 0 <= i < below.names.len() implies all.names.contains(
        #[trigger] below.names[i],
    ) by {
        let j = choose|j: int| 0 <= j < dirs.names.len() && dirs.names[j] == below.names[i];
        assert(all.names[c.names.len() + x.names.len() + j] == below.names[i]);
    }
    assert forall|i: int| 0 <= i < below.ids.len() implies all.ids.contains(
        #[trigger] below.ids[i],
    ) by {
        let j = choose|j: int| 0 <= j < dirs.ids.len() && dirs.ids[j] == below.ids[i];
        assert(all.ids[c.ids.len() + x.ids.len() + j] == below.ids[i]);
    }
}

proof fn lemma_below(
    env: EnvView,
    disk: DiskView,
    at: Seq<Seq<char>>,
    dirs: Seq<DirView>,
    deeper: nat,
    k: int,
)
    requires
        deeper > 0,
        0 <= k < dirs.len(),
        swept(env.skip_dirs, dirs[k].name),
    ensures
        ({
            let all = dirs_found(env, disk, at, dirs, deeper);
            let below = tree_found(
                env,
                disk,
                child(at, dirs[k].name),
                dirs[k],
                (deeper - 1) as nat,
            );
            &&& forall|i: int|
                0 <= i < below.names.len() ==> all.names.contains(#[trigger] below.names[i])
            &&& forall|i: int|
                0 <= i < below.ids.len() ==> all.ids.contains(#[trigger] below.ids[i])
        }),
    decreases dirs.len(),
{
    let all = dirs_found(env, disk, at, dirs, deeper);
    let below = tree_found(env, disk, child(at, dirs[k].name), dirs[k], (deeper - 1) as nat);
    let f = dirs.drop_last();
    let z = dirs.last();
    let front = dirs_found(env, disk, at, f, deeper);
    let own = if swept(env.skip_dirs, z.name) {
        tree_found(env, disk, child(at, z.name), z, (deeper - 1) as nat)
    } else {
        super::names::FoundView::none()
    };
    assert(all == own.plus(front));
    if k < f.len() {
        assert(f[k] == dirs[k]);
        lemma_below(env, disk, at, f, deeper, k);
        assert forall|i: int| 0 <= i < below.names.len() implies all.names.contains(
            #[trigger] below.names[i],
        ) by {
            let j = choose|j: int| 0 <= j < front.names.len() && front.names[j] == below.names[i];
            assert(all.names[own.names.len() + j] == below.names[i]);
        }
        assert forall|i: int| 0 <= i < below.ids.len() implies all.ids.contains(
            #[trigger] below.ids[i],
        ) by {
            let j = choose|j: int| 0 <= j < front.ids.len() && front.ids[j] == below.ids[i];
            assert(all.ids[own.ids.len() + j] == below.ids[i]);
        }
    } else {
        assert forall|i: int| 0 <= i < below.names.len() implies all.names.contains(
            #[trigger] below.names[i],
        ) by {
            assert(all.names[i] == below.names[i]);
        }
        assert forall|i: int| 0 <= i < below.ids.len() implies all.ids.contains(
            #[trigger] below.ids[i],
        ) by {
            assert(all.ids[i] == below.ids[i]);
        }
    }
}

/// A Swift package's name is what stands in quotation marks behind the first `name:`.
pub proof fn law_a_swift_packages_name(a: Seq<char>, b: Seq<char>, n: Seq<char>, c: Seq<char>)
    requires
        forall|i: int|
            0 <= i < a.len() ==> !#[trigger] occurs_at(
                a + "name:"@ + b + "\""@ + n + "\""@ + c,
                "name:"@,
                i,
            ),
        free_of(b, '"'),
        free_of(n, '"'),
        n.len() > 0,
    ensures
        swift_name(a + "name:"@ + b + "\""@ + n + "\""@ + c) == Some(n),
{
    reveal_strlit("\"");
    let key = "name:"@;
    let s = a + key + b + "\""@ + n + "\""@ + c;
    assert(s.subrange(a.len() as int, a.len() + key.len() as int) =~= key);
    assert(occurs_at(s, key, a.len() as int));
    lemma_find_from(s, key, 0);
    assert(find_sub(s, key) == Some(a.len() as int));
    let tail = s.skip(a.len() + key.len() as int);
    let more = n + seq!['"'] + c;
    assert(tail =~= b + seq!['"'] + more);
    lemma_first_place(b, more, '"');
    assert(tail.skip(b.len() as int + 1) =~= more);
    lemma_first_place(n, c, '"');
    assert(more.take(n.len() as int) =~= n);
}

} // verus!
