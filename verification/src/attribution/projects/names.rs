//! What a project is called: its directory's name and what its manifests say.

use vstd::prelude::*;
use vstd::slice::slice_subrange;

use crate::attribution::apps::candidates::{dirs_in, tree_child_names};
use crate::attribution::apps::linkers::opt_list;
use crate::attribution::apps::owners::{text_items, texts_of, with_new};
use crate::attribution::model::{EnvView, ResolveEnv};
use crate::attribution::paths::{node_at, node_in};
use crate::disk::{Disk, DiskView, Listed, NodeKind};
use crate::doc::{
    field, json_document, list_of, parse_json, parse_toml, text_field, toml_document, Doc, DocView,
};
use crate::fspath::{child, FilePath};
use crate::scan::{DirNode, DirView, TreeView};
use crate::text::{
    chars_of, ends, ends_with, find_char, find_sub, find_text, has_char, holds_char, index_of, just,
    lines, lines_of, listed, occurs_at, quotes, same, starts, starts_with, string_of, strip_prefix,
    strip_suffix, trim, trim_end_where, trim_start, trim_where, trimmed, trimmed_char,
    trimmed_end_char, trimmed_quotes, trimmed_start, without_prefix, without_suffix,
};

use super::discovery::{is_swept, swept};
use super::{put_path, put_text, put_texts, Project, ProjectView};

verus! {

broadcast use crate::disk::group_asks;

/// How deep below a project's root manifests are looked for.
pub const NAME_SEARCH_DEPTH: usize = 4;

/// How much of a manifest is read.
pub const MAX_MANIFEST_BYTES: usize = 262144;

/// `names` with a further name, unless it is empty or there already; the space around it does not
/// count.
pub open spec fn with_name(names: Seq<Seq<char>>, name: Seq<char>) -> Seq<Seq<char>> {
    if trim(name).len() == 0 {
        names
    } else {
        with_new(names, trim(name))
    }
}

/// `names` with all further names.
pub open spec fn with_names(names: Seq<Seq<char>>, more: Seq<Seq<char>>) -> Seq<Seq<char>>
    decreases more.len(),
{
    if more.len() == 0 {
        names
    } else {
        with_name(with_names(names, more.drop_last()), more.last())
    }
}

/// `ids` with all further ids that are not there yet.
pub open spec fn with_ids(ids: Seq<Seq<char>>, more: Seq<Seq<char>>) -> Seq<Seq<char>>
    decreases more.len(),
{
    if more.len() == 0 {
        ids
    } else {
        with_new(with_ids(ids, more.drop_last()), more.last())
    }
}

fn add_names(names: &mut Vec<String>, more: &Vec<String>)
    ensures
        final(names).deep_view() == with_names(old(names).deep_view(), more.deep_view()),
{
    let ghost was = names.deep_view();
    let ghost all = more.deep_view();
    let mut i: usize = 0;
    assert(names.deep_view() =~= with_names(was, all.take(0)));
    while i < more.len()
        invariant
            i <= more.len(),
            all == more.deep_view(),
            names.deep_view() == with_names(was, all.take(i as int)),
        decreases more.len() - i,
    {
        proof {
            assert(all.take(i + 1).drop_last() =~= all.take(i as int));
            assert(all.take(i + 1).last() == more@[i as int]@);
        }
        let c = chars_of(more[i].as_str());
        let t = trimmed(c.as_slice());
        if t.len() > 0 {
            let name = string_of(t);
            if !listed(names, name.as_str()) {
                put_text(names, name);
            }
        }
        i = i + 1;
    }
    assert(all.take(i as int) =~= all);
}

fn add_ids(ids: &mut Vec<String>, more: &Vec<String>)
    ensures
        final(ids).deep_view() == with_ids(old(ids).deep_view(), more.deep_view()),
{
    let ghost was = ids.deep_view();
    let ghost all = more.deep_view();
    let mut i: usize = 0;
    assert(ids.deep_view() =~= with_ids(was, all.take(0)));
    while i < more.len()
        invariant
            i <= more.len(),
            all == more.deep_view(),
            ids.deep_view() == with_ids(was, all.take(i as int)),
        decreases more.len() - i,
    {
        proof {
            assert(all.take(i + 1).drop_last() =~= all.take(i as int));
            assert(all.take(i + 1).last() == more@[i as int]@);
        }
        if !listed(ids, more[i].as_str()) {
            put_text(ids, more[i].clone());
        }
        i = i + 1;
    }
    assert(all.take(i as int) =~= all);
}

/// The patterns under `workspaces` in a `package.json`: a list, or a table with a list under
/// `packages`.
pub open spec fn globs_in(d: DocView) -> Seq<Seq<char>> {
    match field(d, "workspaces"@) {
        Some(DocView::List(items)) => texts_of(Some(items)),
        Some(DocView::Table(t)) => texts_of(list_of(field(DocView::Table(t), "packages"@))),
        _ => seq![],
    }
}

/// The patterns under `workspaces` in a `package.json`.
pub fn workspace_globs(d: &Doc) -> (r: Vec<String>)
    ensures
        r.deep_view() == globs_in(d@),
{
    match d.get("workspaces") {
        Some(w) => {
            if w.as_list().is_some() {
                text_items(d, "workspaces")
            } else {
                let r = text_items(w, "packages");
                proof {
                    if !(w@ is Table) {
                        assert(texts_of(None) =~= seq![]);
                    }
                }
                r
            }
        },
        None => {
            let r: Vec<String> = Vec::new();
            assert(r.deep_view() =~= seq![]);
            r
        },
    }
}

/// The pattern in one line of the list, without quotation marks.
pub open spec fn listed_glob(rest: Seq<char>) -> Seq<char> {
    trim_where(trim(rest), quotes())
}

/// The patterns under `packages:`, from a place inside (`open`) or before that list.
pub open spec fn pnpm_globs(l: Seq<Seq<char>>, open: bool) -> Seq<Seq<char>>
    decreases l.len(),
{
    if l.len() == 0 {
        seq![]
    } else {
        let t = trim_start(l[0]);
        if starts(t, "packages:"@) {
            pnpm_globs(l.skip(1), true)
        } else if !open {
            pnpm_globs(l.skip(1), false)
        } else if !starts(t, "-"@) {
            seq![]
        } else {
            let g = listed_glob(t.skip("-"@.len() as int));
            if g.len() > 0 {
                seq![g] + pnpm_globs(l.skip(1), true)
            } else {
                pnpm_globs(l.skip(1), true)
            }
        }
    }
}

/// The patterns that a `pnpm-workspace.yaml` lists under `packages:`: one in a line behind a `-`,
/// up to the first line that has none.
pub fn parse_pnpm_workspace_packages(text: &str) -> (r: Vec<String>)
    ensures
        r.deep_view() == pnpm_globs(lines(text@), false),
{
    let l = lines_of(text);
    let ghost all = lines(text@);
    let mut out: Vec<String> = Vec::new();
    let mut open = false;
    let mut i: usize = 0;
    proof {
        assert(all.skip(0) =~= all);
        assert(out.deep_view() + pnpm_globs(all, false) =~= pnpm_globs(all, false));
    }
    while i < l.len()
        invariant
            i <= l.len(),
            all == l.deep_view(),
            all == lines(text@),
            out.deep_view() + pnpm_globs(all.skip(i as int), open) == pnpm_globs(all, false),
        decreases l.len() - i,
    {
        let ghost was = out.deep_view();
        let ghost now = all.skip(i as int);
        let ghost next = all.skip(i + 1);
        proof {
            assert(now[0] == l@[i as int]@);
            assert(now.skip(1) =~= next);
        }
        let c = chars_of(l[i].as_str());
        let t = trimmed_start(c.as_slice());
        if starts_with(t, "packages:") {
            open = true;
        } else if open {
            match strip_prefix(t, "-") {
                Some(rest) => {
                    let g = trimmed_quotes(trimmed(rest));
                    if g.len() > 0 {
                        let s = string_of(g);
                        put_text(&mut out, s);
                        assert(out.deep_view() + pnpm_globs(next, true) =~= was + (seq![s@]
                            + pnpm_globs(next, true)));
                    }
                },
                None => {
                    assert(pnpm_globs(now, open) =~= seq![]);
                    assert(was + pnpm_globs(now, open) =~= was);
                    return out;
                },
            }
        }
        i = i + 1;
    }
    assert(out.deep_view() + pnpm_globs(all.skip(i as int), open) =~= out.deep_view());
    out
}

/// Where `dir/*` is a pattern with no other star, `dir`.
pub open spec fn glob_prefix(glob: Seq<char>) -> Option<Seq<char>> {
    match without_suffix(glob, "/*"@) {
        Some(p) => if p.len() == 0 || has_char(p, '*') {
            None
        } else {
            Some(p)
        },
        None => None,
    }
}

/// The directories that a pattern stands for, as the walked trees know them.
pub open spec fn glob_dirs(
    trees: Seq<TreeView>,
    root: Seq<Seq<char>>,
    glob: Seq<char>,
) -> Seq<Seq<Seq<char>>> {
    match glob_prefix(glob) {
        Some(p) => {
            let dir = child(root, p);
            let names = dirs_in(trees, dir);
            Seq::new(names.len(), |i: int| child(dir, names[i]))
        },
        None => seq![],
    }
}

/// The directories that a pattern stands for: those in `dir` for `dir/*`, none for any other
/// pattern.
pub fn resolve_simple_glob(env: &ResolveEnv, root: &FilePath, glob: &str) -> (r: Vec<FilePath>)
    ensures
        r.deep_view() == glob_dirs(env@.trees, root@, glob@),
{
    let mut out: Vec<FilePath> = Vec::new();
    let c = chars_of(glob);
    match strip_suffix(c.as_slice(), "/*") {
        Some(p) => {
            if p.len() > 0 && !holds_char(p, '*') {
                let s = string_of(p);
                let dir = root.child(s.as_str());
                let names = tree_child_names(&env.trees, &dir);
                let ghost want = glob_dirs(env@.trees, root@, glob@);
                let mut i: usize = 0;
                while i < names.len()
                    invariant
                        i <= names.len(),
                        want.len() == names.len(),
                        want == Seq::new(
                            names.deep_view().len(),
                            |i: int| child(dir@, names.deep_view()[i]),
                        ),
                        out.deep_view() =~= want.take(i as int),
                    decreases names.len() - i,
                {
                    assert(names.deep_view()[i as int] == names@[i as int]@);
                    put_path(&mut out, dir.child(names[i].as_str()));
                    i = i + 1;
                }
                assert(out.deep_view() =~= want);
                return out;
            }
        },
        None => {},
    }
    assert(out.deep_view() =~= seq![]);
    out
}

/// The directories that the patterns stand for, pattern by pattern.
pub open spec fn globs_dirs(
    trees: Seq<TreeView>,
    root: Seq<Seq<char>>,
    globs: Seq<Seq<char>>,
) -> Seq<Seq<Seq<char>>>
    decreases globs.len(),
{
    if globs.len() == 0 {
        seq![]
    } else {
        globs_dirs(trees, root, globs.drop_last()) + glob_dirs(trees, root, globs.last())
    }
}

/// The name in the `package.json` of a directory.
pub open spec fn package_name(disk: DiskView) -> spec_fn(Seq<Seq<char>>) -> Option<Seq<char>> {
    |dir: Seq<Seq<char>>|
        match disk.head(child(dir, "package.json"@), MAX_MANIFEST_BYTES) {
            Some(text) => match json_document(text) {
                Some(d) => text_field(d, "name"@),
                None => None,
            },
            None => None,
        }
}

/// The names of the packages in the directories that the patterns stand for.
pub open spec fn workspace_names(
    env: EnvView,
    disk: DiskView,
    root: Seq<Seq<char>>,
    globs: Seq<Seq<char>>,
) -> Seq<Seq<char>> {
    globs_dirs(env.trees, root, globs).filter_map(package_name(disk))
}

/// What a `package.json` gives: its own name and those of its workspaces.
pub open spec fn manifest_names(
    env: EnvView,
    disk: DiskView,
    root: Seq<Seq<char>>,
    manifest: Option<DocView>,
) -> Seq<Seq<char>> {
    match manifest {
        Some(d) => opt_list(text_field(d, "name"@)) + workspace_names(env, disk, root, globs_in(d)),
        None => seq![],
    }
}

/// The patterns in the `pnpm-workspace.yaml` of a directory.
pub open spec fn pnpm_globs_in(disk: DiskView, root: Seq<Seq<char>>) -> Seq<Seq<char>> {
    match disk.head(child(root, "pnpm-workspace.yaml"@), MAX_MANIFEST_BYTES) {
        Some(text) => pnpm_globs(lines(text), false),
        None => seq![],
    }
}

/// The document that an optional text holds.
pub open spec fn opt_json(text: Option<Seq<char>>) -> Option<DocView> {
    match text {
        Some(t) => json_document(t),
        None => None,
    }
}

/// The names that the packages of a JavaScript project have.
pub open spec fn package_names(env: EnvView, disk: DiskView, root: Seq<Seq<char>>) -> Seq<Seq<char>> {
    manifest_names(env, disk, root, opt_json(disk.head(child(root, "package.json"@), MAX_MANIFEST_BYTES)))
        + workspace_names(env, disk, root, pnpm_globs_in(disk, root))
}

fn name_of_package(disk: &mut Disk, env: &ResolveEnv, dir: &FilePath) -> (r: Option<String>)
    requires
        old(disk).wf(),
    ensures
        final(disk).asked(*old(disk)),
        final(disk).holds() ==> r.deep_view() == package_name(old(disk)@)(dir@),
{
    match env.read_head(disk, &dir.child("package.json"), MAX_MANIFEST_BYTES) {
        Some(text) => match parse_json(text.as_str()) {
            Some(d) => match d.text("name") {
                Some(n) => Some(n.to_owned()),
                None => None,
            },
            None => None,
        },
        None => None,
    }
}

fn glob_all(env: &ResolveEnv, root: &FilePath, globs: &Vec<String>) -> (r: Vec<FilePath>)
    ensures
        r.deep_view() == globs_dirs(env@.trees, root@, globs.deep_view()),
{
    let ghost all = globs.deep_view();
    let mut out: Vec<FilePath> = Vec::new();
    let mut i: usize = 0;
    assert(out.deep_view() =~= globs_dirs(env@.trees, root@, all.take(0)));
    while i < globs.len()
        invariant
            i <= globs.len(),
            all == globs.deep_view(),
            out.deep_view() == globs_dirs(env@.trees, root@, all.take(i as int)),
        decreases globs.len() - i,
    {
        proof {
            assert(all.take(i + 1).drop_last() =~= all.take(i as int));
            assert(all.take(i + 1).last() == globs@[i as int]@);
        }
        let ghost was = out.deep_view();
        let mut more = resolve_simple_glob(env, root, globs[i].as_str());
        let ghost m = more.deep_view();
        out.append(&mut more);
        assert(out.deep_view() =~= was + m);
        i = i + 1;
    }
    assert(all.take(i as int) =~= all);
    out
}

fn collect_workspaces(
    env: &ResolveEnv,
    disk: &mut Disk,
    root: &FilePath,
    globs: &Vec<String>,
    out: &mut Vec<String>,
)
    requires
        old(disk).wf(),
    ensures
        final(disk).asked(*old(disk)),
        final(disk).holds() ==> final(out).deep_view() == old(out).deep_view() + workspace_names(
            env@,
            old(disk)@,
            root@,
            globs.deep_view(),
        ),
{
    let ghost facts = disk@;
    let ghost was = out.deep_view();
    let ghost pick = package_name(facts);
    let dirs = glob_all(env, root, globs);
    let ghost all = dirs.deep_view();
    let mut i: usize = 0;
    proof {
        assert(all.take(0) =~= seq![]);
        reveal(Seq::filter_map);
        assert(out.deep_view() =~= was + all.take(0).filter_map(pick));
    }
    while i < dirs.len()
        invariant
            i <= dirs.len(),
            all == dirs.deep_view(),
            facts == old(disk)@,
            pick == package_name(facts),
            disk.asked(*old(disk)),
            disk.holds() ==> out.deep_view() == was + all.take(i as int).filter_map(pick),
        decreases dirs.len() - i,
    {
        proof {
            assert(all[i as int] == dirs@[i as int]@);
            all.lemma_filter_map_take_succ(pick, i as int);
        }
        if let Some(name) = name_of_package(disk, env, &dirs[i]) {
            put_text(out, name);
        }
        assert(disk.holds() ==> out.deep_view() =~= was + all.take(i + 1).filter_map(pick));
        i = i + 1;
    }
    assert(all.take(i as int) =~= all);
}

fn collect_package_json(env: &ResolveEnv, disk: &mut Disk, root: &FilePath) -> (r: Vec<String>)
    requires
        old(disk).wf(),
    ensures
        final(disk).asked(*old(disk)),
        final(disk).holds() ==> r.deep_view() == package_names(env@, old(disk)@, root@),
{
    let ghost facts = disk@;
    let mut out: Vec<String> = Vec::new();
    if let Some(text) = env.read_head(disk, &root.child("package.json"), MAX_MANIFEST_BYTES) {
        if let Some(d) = parse_json(text.as_str()) {
            if let Some(name) = d.text("name") {
                out.push(name.to_owned());
            }
            assert(out.deep_view() =~= opt_list(text_field(d@, "name"@)));
            let globs = workspace_globs(&d);
            collect_workspaces(env, disk, root, &globs, &mut out);
        }
    }
    assert(disk.holds() ==> out.deep_view() =~= manifest_names(
        env@,
        facts,
        root@,
        opt_json(facts.head(child(root@, "package.json"@), MAX_MANIFEST_BYTES)),
    ));
    let globs = match env.read_head(
        disk,
        &root.child("pnpm-workspace.yaml"),
        MAX_MANIFEST_BYTES,
    ) {
        Some(text) => parse_pnpm_workspace_packages(text.as_str()),
        None => Vec::new(),
    };
    assert(disk.holds() ==> globs.deep_view() =~= pnpm_globs_in(facts, root@));
    collect_workspaces(env, disk, root, &globs, &mut out);
    out
}

/// Names and bundle ids, in the order in which they were found.
#[verifier::ext_equal]
pub struct FoundView {
    pub names: Seq<Seq<char>>,
    pub ids: Seq<Seq<char>>,
}

impl FoundView {
    /// Nothing found.
    pub open spec fn none() -> FoundView {
        FoundView { names: seq![], ids: seq![] }
    }

    /// What was found, and behind it what was found then.
    pub open spec fn plus(self, more: FoundView) -> FoundView {
        FoundView { names: self.names + more.names, ids: self.ids + more.ids }
    }
}

/// What manifests give.
pub struct Found {
    pub names: Vec<String>,
    pub ids: Vec<String>,
}

impl View for Found {
    type V = FoundView;

    open spec fn view(&self) -> FoundView {
        FoundView { names: self.names.deep_view(), ids: self.ids.deep_view() }
    }
}

/// The names in a `Cargo.toml`: the package's and those of its programs.
pub open spec fn cargo_names(d: DocView) -> Seq<Seq<char>> {
    opt_list(
        match field(d, "package"@) {
            Some(p) => text_field(p, "name"@),
            None => None,
        },
    ) + (match list_of(field(d, "bin"@)) {
        Some(bins) => bins.filter_map(bin_name()),
        None => seq![],
    })
}

/// The name of a program.
pub open spec fn bin_name() -> spec_fn(DocView) -> Option<Seq<char>> {
    |bin: DocView| text_field(bin, "name"@)
}

/// The names in a `Cargo.toml`: the package's and those of its programs.
pub fn cargo_toml_names(d: &Doc) -> (r: Vec<String>)
    ensures
        r.deep_view() == cargo_names(d@),
{
    let mut out: Vec<String> = Vec::new();
    if let Some(p) = d.get("package") {
        if let Some(name) = p.text("name") {
            out.push(name.to_owned());
        }
    }
    let ghost first = opt_list(
        match field(d@, "package"@) {
            Some(p) => text_field(p, "name"@),
            None => None,
        },
    );
    assert(out.deep_view() =~= first);
    if let Some(bins) = d.list("bin") {
        let ghost all = bins.deep_view();
        let mut i: usize = 0;
        proof {
            assert(all.take(0) =~= seq![]);
            reveal(Seq::filter_map);
            assert(out.deep_view() =~= first + all.take(0).filter_map(bin_name()));
        }
        while i < bins.len()
            invariant
                i <= bins.len(),
                all == bins.deep_view(),
                out.deep_view() == first + all.take(i as int).filter_map(bin_name()),
            decreases bins.len() - i,
        {
            proof {
                assert(all[i as int] == bins@[i as int]@);
                all.lemma_filter_map_take_succ(bin_name(), i as int);
            }
            if let Some(name) = bins[i].text("name") {
                put_text(&mut out, name.to_owned());
            }
            assert(out.deep_view() =~= first + all.take(i + 1).filter_map(bin_name()));
            i = i + 1;
        }
        assert(all.take(i as int) =~= all);
    }
    assert(out.deep_view() =~= cargo_names(d@));
    out
}

/// The value of `key` that a line of a build settings block gives, where it is written out.
pub open spec fn pbx_value(key: Seq<char>) -> spec_fn(Seq<char>) -> Option<Seq<char>> {
    |line: Seq<char>|
        match without_prefix(trim(line), key) {
            Some(rest) => match without_prefix(trim_start(rest), "="@) {
                Some(v) => {
                    let value = trim_where(trim(trim_end_where(trim(v), just(';'))), just('"'));
                    if value.len() > 0 && !has_char(value, '$') {
                        Some(value)
                    } else {
                        None
                    }
                },
                None => None,
            },
            None => None,
        }
}

fn pbx_line(line: &str, key: &str) -> (r: Option<String>)
    ensures
        r.deep_view() == pbx_value(key@)(line@),
{
    let c = chars_of(line);
    match strip_prefix(trimmed(c.as_slice()), key) {
        Some(rest) => match strip_prefix(trimmed_start(rest), "=") {
            Some(v) => {
                let value = trimmed_char(trimmed(trimmed_end_char(trimmed(v), ';')), '"');
                if value.len() > 0 && !holds_char(value, '$') {
                    Some(string_of(value))
                } else {
                    None
                }
            },
            None => None,
        },
        None => None,
    }
}

/// The values of `key` in a `project.pbxproj`, line by line. A value with a build variable in it
/// is no name and is left out.
pub fn extract_pbxproj_field(text: &str, key: &str) -> (r: Vec<String>)
    ensures
        r.deep_view() == lines(text@).filter_map(pbx_value(key@)),
{
    let l = lines_of(text);
    let ghost all = l.deep_view();
    let ghost pick = pbx_value(key@);
    let mut out: Vec<String> = Vec::new();
    let mut i: usize = 0;
    proof {
        assert(all.take(0) =~= seq![]);
        reveal(Seq::filter_map);
        assert(out.deep_view() =~= all.take(0).filter_map(pick));
    }
    while i < l.len()
        invariant
            i <= l.len(),
            all == l.deep_view(),
            pick == pbx_value(key@),
            out.deep_view() == all.take(i as int).filter_map(pick),
        decreases l.len() - i,
    {
        proof {
            assert(all[i as int] == l@[i as int]@);
            all.lemma_filter_map_take_succ(pick, i as int);
        }
        if let Some(v) = pbx_line(l[i].as_str(), key) {
            put_text(&mut out, v);
        }
        assert(out.deep_view() =~= all.take(i + 1).filter_map(pick));
        i = i + 1;
    }
    assert(all.take(i as int) =~= all);
    out
}

/// Whether the entries hold a file called `Cargo.toml`.
pub open spec fn has_cargo_toml(entries: Seq<(Seq<char>, NodeKind)>) -> bool {
    exists|i: int|
        0 <= i < entries.len() && (#[trigger] entries[i]).1 != NodeKind::Dir && entries[i].0
            == "Cargo.toml"@
}

fn lists_cargo_toml(entries: &Vec<Listed>) -> (r: bool)
    ensures
        r == has_cargo_toml(entries.deep_view()),
{
    let ghost all = entries.deep_view();
    let mut i: usize = 0;
    while i < entries.len()
        invariant
            i <= entries.len(),
            all == entries.deep_view(),
            forall|j: int|
                0 <= j < i ==> !((#[trigger] all[j]).1 != NodeKind::Dir && all[j].0
                    == "Cargo.toml"@),
        decreases entries.len() - i,
    {
        assert(all[i as int] == entries@[i as int].deep_view());
        if entries[i].kind != NodeKind::Dir && same(entries[i].name.as_str(), "Cargo.toml") {
            return true;
        }
        i = i + 1;
    }
    false
}

/// What the `Cargo.toml` of a directory gives.
pub open spec fn cargo_found(disk: DiskView, at: Seq<Seq<char>>) -> FoundView {
    match disk.list(at) {
        Some(entries) => if has_cargo_toml(entries) {
            match disk.head(child(at, "Cargo.toml"@), MAX_MANIFEST_BYTES) {
                Some(text) => match toml_document(text) {
                    Some(d) => FoundView { names: cargo_names(d), ids: seq![] },
                    None => FoundView::none(),
                },
                None => FoundView::none(),
            }
        } else {
            FoundView::none()
        },
        None => FoundView::none(),
    }
}

/// What a directory gives if it is an Xcode project.
pub open spec fn xcode_found(disk: DiskView, at: Seq<Seq<char>>, name: Seq<char>) -> FoundView {
    if ends(name, ".xcodeproj"@) {
        match disk.head(child(child(at, name), "project.pbxproj"@), MAX_MANIFEST_BYTES) {
            Some(text) => FoundView {
                names: lines(text).filter_map(pbx_value("PRODUCT_NAME"@)),
                ids: lines(text).filter_map(pbx_value("PRODUCT_BUNDLE_IDENTIFIER"@)),
            },
            None => FoundView::none(),
        }
    } else {
        FoundView::none()
    }
}

/// What the Xcode projects among these directories give.
pub open spec fn xcode_all(disk: DiskView, at: Seq<Seq<char>>, dirs: Seq<DirView>) -> FoundView
    decreases dirs.len(),
{
    if dirs.len() == 0 {
        FoundView::none()
    } else {
        xcode_all(disk, at, dirs.drop_last()).plus(xcode_found(disk, at, dirs.last().name))
    }
}

/// What a directory and everything looked into below it gives: its own manifests first, then its
/// directories from the last to the first.
pub open spec fn tree_found(
    env: EnvView,
    disk: DiskView,
    at: Seq<Seq<char>>,
    node: DirView,
    deeper: nat,
) -> FoundView
    decreases deeper, 1int, 0nat,
{
    cargo_found(disk, at).plus(xcode_all(disk, at, node.children)).plus(
        dirs_found(env, disk, at, node.children, deeper),
    )
}

/// What the directories give, from the last to the first.
pub open spec fn dirs_found(
    env: EnvView,
    disk: DiskView,
    at: Seq<Seq<char>>,
    dirs: Seq<DirView>,
    deeper: nat,
) -> FoundView
    decreases deeper, 0int, dirs.len(),
{
    if deeper == 0 || dirs.len() == 0 {
        FoundView::none()
    } else {
        let d = dirs.last();
        (if swept(env.skip_dirs, d.name) {
            tree_found(env, disk, child(at, d.name), d, (deeper - 1) as nat)
        } else {
            FoundView::none()
        }).plus(dirs_found(env, disk, at, dirs.drop_last(), deeper))
    }
}

fn collect_cargo(env: &ResolveEnv, disk: &mut Disk, at: &FilePath, out: &mut Found)
    requires
        old(disk).wf(),
    ensures
        final(disk).asked(*old(disk)),
        final(disk).holds() ==> final(out)@ == old(out)@.plus(cargo_found(old(disk)@, at@)),
{
    let ghost was = out@;
    let has = match disk.list(at) {
        Some(entries) => lists_cargo_toml(&entries),
        None => false,
    };
    if has {
        if let Some(text) = env.read_head(disk, &at.child("Cargo.toml"), MAX_MANIFEST_BYTES) {
            if let Some(d) = parse_toml(text.as_str()) {
                let names = cargo_toml_names(&d);
                put_texts(&mut out.names, names);
            }
        }
    }
    assert(disk.holds() ==> out@ =~= was.plus(cargo_found(old(disk)@, at@)));
}

fn collect_xcode(env: &ResolveEnv, disk: &mut Disk, at: &FilePath, node: &DirNode, out: &mut Found)
    requires
        old(disk).wf(),
    ensures
        final(disk).asked(*old(disk)),
        final(disk).holds()
            ==> final(out)@ == old(out)@.plus(xcode_all(old(disk)@, at@, node@.children)),
{
    let ghost facts = disk@;
    let ghost was = out@;
    let ghost all = node@.children;
    let mut i: usize = 0;
    assert(out@ =~= was.plus(xcode_all(facts, at@, all.take(0))));
    while i < node.children.len()
        invariant
            i <= node.children.len(),
            all == node@.children,
            facts == old(disk)@,
            disk.asked(*old(disk)),
            disk.holds() ==> out@ == was.plus(xcode_all(facts, at@, all.take(i as int))),
        decreases node.children.len() - i,
    {
        let name = node.children[i].name.as_str();
        let ghost before = out@;
        proof {
            assert(all[i as int] == node.children@[i as int]@);
            assert(all.take(i + 1).drop_last() =~= all.take(i as int));
            assert(all.take(i + 1).last().name == name@);
        }
        let c = chars_of(name);
        if ends_with(c.as_slice(), ".xcodeproj") {
            let pbx = at.child(name).child("project.pbxproj");
            if let Some(text) = env.read_head(disk, &pbx, MAX_MANIFEST_BYTES) {
                let ids = extract_pbxproj_field(text.as_str(), "PRODUCT_BUNDLE_IDENTIFIER");
                let names = extract_pbxproj_field(text.as_str(), "PRODUCT_NAME");
                put_texts(&mut out.ids, ids);
                put_texts(&mut out.names, names);
            }
        }
        assert(disk.holds() ==> out@ =~= before.plus(xcode_found(facts, at@, name@)));
        assert(disk.holds() ==> out@ =~= was.plus(xcode_all(facts, at@, all.take(i + 1))));
        i = i + 1;
    }
    assert(all.take(i as int) =~= all);
}

fn collect_tree(
    env: &ResolveEnv,
    disk: &mut Disk,
    at: &FilePath,
    node: &DirNode,
    deeper: usize,
    out: &mut Found,
)
    requires
        old(disk).wf(),
    ensures
        final(disk).asked(*old(disk)),
        final(disk).holds()
            ==> final(out)@ == old(out)@.plus(tree_found(env@, old(disk)@, at@, node@, deeper as nat)),
    decreases deeper,
{
    let ghost facts = disk@;
    let ghost was = out@;
    collect_cargo(env, disk, at, out);
    collect_xcode(env, disk, at, node, out);
    let ghost own = out@;
    let ghost all = node@.children;
    let ghost want = dirs_found(env@, facts, at@, all, deeper as nat);
    if deeper > 0 {
        let mut n: usize = node.children.len();
        proof {
            assert(all.take(n as int) =~= all);
            assert(out@.plus(want) =~= own.plus(want));
        }
        let ghost start = *disk;
        while n > 0
            invariant
                n <= node.children.len(),
                deeper > 0,
                all == node@.children,
                facts == old(disk)@,
                disk.asked(*old(disk)),
                disk.holds() ==> start.holds(),
                disk.holds()
                    ==> out@.plus(dirs_found(env@, facts, at@, all.take(n as int), deeper as nat))
                    == own.plus(want),
            decreases n,
        {
            let d = &node.children[n - 1];
            let ghost before = out@;
            let ghost s = all.take(n as int);
            proof {
                assert(all[n - 1] == d@);
                assert(s.drop_last() =~= all.take(n - 1));
                assert(s.last() == d@);
            }
            let ghost one = if swept(env@.skip_dirs, d@.name) {
                tree_found(env@, facts, child(at@, d@.name), d@, (deeper - 1) as nat)
            } else {
                FoundView::none()
            };
            if is_swept(env, d.name.as_str()) {
                let sub = at.child(d.name.as_str());
                collect_tree(env, disk, &sub, d, deeper - 1, out);
            }
            proof {
                let rest = dirs_found(env@, facts, at@, all.take(n - 1), deeper as nat);
                assert(disk.holds() ==> out@ =~= before.plus(one));
                assert(before.plus(one).plus(rest) =~= before.plus(one.plus(rest)));
            }
            n = n - 1;
        }
        assert(out@ =~= out@.plus(FoundView::none()));
    } else {
        assert(out@ =~= own.plus(want));
    }
    assert(disk.holds() ==> out@ =~= was.plus(tree_found(env@, facts, at@, node@, deeper as nat)));
}

/// What the directory of a project gives, as far as it was walked.
pub open spec fn project_found(env: EnvView, disk: DiskView, root: Seq<Seq<char>>) -> FoundView {
    match node_in(env.trees, root) {
        Some(node) => tree_found(env, disk, root, node, NAME_SEARCH_DEPTH as nat),
        None => FoundView::none(),
    }
}

/// The text behind the first `"` and before the next.
pub open spec fn first_quoted(s: Seq<char>) -> Option<Seq<char>> {
    if !has_char(s, '"') {
        None
    } else {
        let rest = s.skip(index_of(s, '"') as int + 1);
        if !has_char(rest, '"') {
            None
        } else {
            Some(rest.take(index_of(rest, '"') as int))
        }
    }
}

/// The text behind the first `"` and before the next.
pub fn quoted_in(s: &[char]) -> (r: Option<String>)
    ensures
        r.deep_view() == first_quoted(s@),
{
    let k = find_char(s, '"');
    if k >= s.len() {
        return None;
    }
    let rest = slice_subrange(s, k + 1, s.len());
    assert(rest@ =~= s@.skip(k + 1));
    let n = find_char(rest, '"');
    if n >= rest.len() {
        return None;
    }
    let v = slice_subrange(rest, 0, n);
    assert(v@ =~= rest@.take(n as int));
    Some(string_of(v))
}

/// The first quoted text behind the first `name:`, unless it is empty.
pub open spec fn swift_name(text: Seq<char>) -> Option<Seq<char>> {
    match find_sub(text, "name:"@) {
        Some(i) => match first_quoted(text.skip(i + "name:"@.len())) {
            Some(n) => if n.len() > 0 {
                Some(n)
            } else {
                None
            },
            None => None,
        },
        None => None,
    }
}

/// The package's own name in a `Package.swift`: the first that the file gives.
pub fn extract_swift_package_name(text: &str) -> (r: Option<String>)
    ensures
        r.deep_view() == swift_name(text@),
{
    let c = chars_of(text);
    match find_text(c.as_slice(), "name:", 0) {
        Some(i) => {
            let key = chars_of("name:");
            let n = c.len();
            assert(occurs_at(c@, key@, i as int));
            assert(i + key@.len() <= n);
            let rest = slice_subrange(c.as_slice(), i + key.len(), n);
            assert(rest@ =~= text@.skip(i + "name:"@.len()));
            match quoted_in(rest) {
                Some(n) => {
                    let v = chars_of(n.as_str());
                    if v.len() > 0 {
                        Some(n)
                    } else {
                        None
                    }
                },
                None => None,
            }
        },
        None => None,
    }
}

/// What the `Package.swift` of a directory gives.
pub open spec fn swift_names(disk: DiskView, root: Seq<Seq<char>>) -> Seq<Seq<char>> {
    match disk.head(child(root, "Package.swift"@), MAX_MANIFEST_BYTES) {
        Some(text) => opt_list(swift_name(text)),
        None => seq![],
    }
}

/// A project with the names and bundle ids that its manifests give.
pub open spec fn with_manifest_names(env: EnvView, disk: DiskView, p: ProjectView) -> ProjectView {
    let found = project_found(env, disk, p.root);
    ProjectView {
        names: with_names(
            p.names,
            package_names(env, disk, p.root) + found.names + swift_names(disk, p.root),
        ),
        bundle_ids: with_ids(p.bundle_ids, found.ids),
        ..p
    }
}

proof fn lemma_new_stays_distinct(s: Seq<Seq<char>>, x: Seq<char>)
    requires
        s.no_duplicates(),
    ensures
        with_new(s, x).no_duplicates(),
        s.is_prefix_of(with_new(s, x)),
{
    let t = with_new(s, x);
    if !s.contains(x) {
        assert forall|i: int, j: int| 0 <= i < t.len() && 0 <= j < t.len() && i != j implies t[i]
            != t[j] by {
            if i < s.len() {
                assert(s.contains(s[i]));
            }
            if j < s.len() {
                assert(s.contains(s[j]));
            }
        }
        assert(t.subrange(0, s.len() as int) =~= s);
    } else {
        assert(t.subrange(0, s.len() as int) =~= s);
    }
}

proof fn lemma_prefix_of_prefix(a: Seq<Seq<char>>, b: Seq<Seq<char>>, c: Seq<Seq<char>>)
    requires
        a.is_prefix_of(b),
        b.is_prefix_of(c),
    ensures
        a.is_prefix_of(c),
{
    assert(c.subrange(0, a.len() as int) =~= b.subrange(0, a.len() as int));
}

proof fn lemma_names_stay_distinct(names: Seq<Seq<char>>, more: Seq<Seq<char>>)
    requires
        names.no_duplicates(),
    ensures
        with_names(names, more).no_duplicates(),
        names.is_prefix_of(with_names(names, more)),
    decreases more.len(),
{
    if more.len() > 0 {
        let before = with_names(names, more.drop_last());
        lemma_names_stay_distinct(names, more.drop_last());
        lemma_new_stays_distinct(before, trim(more.last()));
        assert(before.subrange(0, before.len() as int) =~= before);
        lemma_prefix_of_prefix(names, before, with_names(names, more));
    } else {
        assert(names.subrange(0, names.len() as int) =~= names);
    }
}

proof fn lemma_ids_stay_distinct(ids: Seq<Seq<char>>, more: Seq<Seq<char>>)
    requires
        ids.no_duplicates(),
    ensures
        with_ids(ids, more).no_duplicates(),
        ids.is_prefix_of(with_ids(ids, more)),
    decreases more.len(),
{
    if more.len() > 0 {
        let before = with_ids(ids, more.drop_last());
        lemma_ids_stay_distinct(ids, more.drop_last());
        lemma_new_stays_distinct(before, more.last());
        lemma_prefix_of_prefix(ids, before, with_ids(ids, more));
    } else {
        assert(ids.subrange(0, ids.len() as int) =~= ids);
    }
}

/// What the manifests give comes behind what a project had, and no name and no bundle id is listed
/// twice.
pub proof fn law_names_and_ids_are_listed_once(env: EnvView, disk: DiskView, p: ProjectView)
    requires
        p.names.no_duplicates(),
        p.bundle_ids.no_duplicates(),
    ensures
        with_manifest_names(env, disk, p).names.no_duplicates(),
        with_manifest_names(env, disk, p).bundle_ids.no_duplicates(),
        p.names.is_prefix_of(with_manifest_names(env, disk, p).names),
        p.bundle_ids.is_prefix_of(with_manifest_names(env, disk, p).bundle_ids),
        with_manifest_names(env, disk, p).root == p.root,
        with_manifest_names(env, disk, p).worktrees == p.worktrees,
{
    let found = project_found(env, disk, p.root);
    lemma_names_stay_distinct(
        p.names,
        package_names(env, disk, p.root) + found.names + swift_names(disk, p.root),
    );
    lemma_ids_stay_distinct(p.bundle_ids, found.ids);
}

/// Add to a project the names and the bundle ids that its manifests give, each once, in the order
/// in which they are found.
pub fn collect(project: &mut Project, env: &ResolveEnv, disk: &mut Disk)
    requires
        old(disk).wf(),
    ensures
        final(disk).asked(*old(disk)),
        final(disk).holds()
            ==> final(project)@ == with_manifest_names(env@, old(disk)@, old(project)@),
{
    let ghost facts = disk@;
    let names = collect_package_json(env, disk, &project.root);
    let ghost first = names.deep_view();
    let mut found = Found { names, ids: Vec::new() };
    let ghost start = found@;
    if let Some(node) = node_at(&env.trees, &project.root) {
        collect_tree(env, disk, &project.root, node, NAME_SEARCH_DEPTH, &mut found);
    }
    let ghost mid = project_found(env@, facts, project@.root);
    assert(disk.holds() ==> found@ =~= (FoundView { names: first, ids: seq![] }).plus(mid));
    assert(disk.holds() ==> found.ids.deep_view() =~= mid.ids);
    assert(disk.holds() ==> found.names.deep_view() =~= first + mid.names);
    let swift = match env.read_head(
        disk,
        &project.root.child("Package.swift"),
        MAX_MANIFEST_BYTES,
    ) {
        Some(text) => match extract_swift_package_name(text.as_str()) {
            Some(n) => {
                let mut v: Vec<String> = Vec::new();
                put_text(&mut v, n);
                v
            },
            None => Vec::new(),
        },
        None => Vec::new(),
    };
    assert(disk.holds() ==> swift.deep_view() =~= swift_names(facts, project@.root));
    put_texts(&mut found.names, swift);
    add_names(&mut project.names, &found.names);
    add_ids(&mut project.bundle_ids, &found.ids);
}

} // verus!
