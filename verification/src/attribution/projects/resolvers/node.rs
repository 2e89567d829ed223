//! Node: the package caches of pnpm, npm, yarn and bun that a project uses, and the Node version
//! that it pins.

use vstd::prelude::*;
use vstd::slice::slice_subrange;

use crate::attribution::model::{
    put, put_all, Claim, ClaimView, EntryKind, EnvView, EvidenceTier, ResolveEnv,
};
use crate::attribution::paths::{canonical, tree_path};
use crate::attribution::projects::{put_path, Project, ProjectView};
use crate::disk::{Disk, DiskView};
use crate::doc::{field, json_document, parse_json, text_field, Doc, DocView};
use crate::fspath::{
    child, file_name, is_absolute, joined, path_of, path_text, under, FilePath,
};
use crate::scan::{Finding, FindingView, ScannerId};
use crate::seqs::{
    first_some, flat, lemma_filter_map_start, lemma_first_some_step, lemma_flat_start,
    lemma_flat_step,
};
use crate::text::{
    cat2, cat3, cat4, chars_of, find_char, find_text, has_char, has_text, holds_char, index_of,
    just, lines, lines_of, next_word, same, span, starts, str_starts, string_of, strip_prefix,
    swap_char, swapped, trim, trim_start, trim_where, trimmed, trimmed_char, trimmed_start,
    without_prefix, words,
};

use super::common::{
    all_tagged, list_names, names_in, own, own_claim, place_claim, place_claims, prefixed_claims,
    put_prefixed_claims, real_dir_names, real_dirs, shared, shared_claim, tag_all, Place,
};
use super::derive::{blob_path, npm_blob};
use super::links::{normal_path, normalize_path};
use super::parsers::{
    bun_lock, bun_packages, commented_json, locked_packages, node_pin, normalise_node_pin,
    package_lock, yarn_berry, yarn_line, PackageRef,
};
use super::templates::{files_below, first_of, walk_files};
use super::versions::{
    is_newest, none_higher, numbers_le, parse_version, semver_after, semver_of, version_after,
    SemVersion, SemVersionView,
};

verus! {

broadcast use crate::disk::group_asks;

/// How much of a lock file is read.
pub const MAX_LOCKFILE_BYTES: usize = 8388608;

/// How many files of npm's index are read.
pub const MAX_INDEX_FILES: usize = 50000;

/// How much of `.modules.yaml` is read.
pub const MAX_MODULES_BYTES: usize = 65536;

/// How much of a `package.json` is read.
pub const MAX_PACKAGE_BYTES: usize = 262144;

/// The store that a line of `.modules.yaml` names.
pub open spec fn store_line() -> spec_fn(Seq<char>) -> Option<Seq<char>> {
    |line: Seq<char>|
        match without_prefix(trim(line), "storeDir:"@) {
            Some(rest) => {
                let value = trim_where(trim_where(trim(rest), just('\'')), just('"'));
                if value.len() > 0 {
                    Some(value)
                } else {
                    None
                }
            },
            None => None,
        }
}

fn store_in_line(line: &str) -> (r: Option<String>)
    ensures
        r.deep_view() == store_line()(line@),
{
    let c = chars_of(line);
    match strip_prefix(trimmed(c.as_slice()), "storeDir:") {
        Some(rest) => {
            let value = trimmed_char(trimmed_char(trimmed(rest), '\''), '"');
            if value.len() > 0 {
                Some(string_of(value))
            } else {
                None
            }
        },
        None => None,
    }
}

/// The store that the text of `.modules.yaml` names.
pub fn parse_store_dir(text: &str) -> (r: Option<String>)
    ensures
        r.deep_view() == first_some(lines(text@), store_line()),
{
    let l = lines_of(text);
    let ghost all = lines(text@);
    let ghost f = store_line();
    let mut i: usize = 0;
    assert(all.skip(0) =~= all);
    while i < l.len()
        invariant
            i <= l.len(),
            all == l.deep_view(),
            all == lines(text@),
            f == store_line(),
            first_some(all.skip(i as int), f) == first_some(all, f),
        decreases l.len() - i,
    {
        proof {
            assert(all[i as int] == l@[i as int]@);
            lemma_first_some_step(all, f, i as int);
        }
        let found = store_in_line(l[i].as_str());
        if found.is_some() {
            return found;
        }
        i = i + 1;
    }
    None
}

/// The stores that pnpm uses by default.
pub open spec fn default_stores(home: Seq<Seq<char>>) -> Seq<Seq<Seq<char>>> {
    seq![
        child(home, "Library/pnpm/store"@),
        child(home, ".local/share/pnpm/store"@),
        child(home, ".pnpm-store"@),
    ]
}

/// The stores that a project may use.
pub open spec fn stores(root: Seq<Seq<char>>, home: Seq<Seq<char>>, disk: DiskView) -> Seq<
    Seq<Seq<char>>,
> {
    let list = default_stores(home);
    match disk.head(child(root, "node_modules/.modules.yaml"@), MAX_MODULES_BYTES) {
        Some(text) => match first_some(lines(text), store_line()) {
            Some(dir) => if list.contains(path_of(dir)) {
                list
            } else {
                list.push(path_of(dir))
            },
            None => list,
        },
        None => list,
    }
}

fn holds_path(list: &Vec<FilePath>, p: &FilePath) -> (r: bool)
    ensures
        r == list.deep_view().contains(p@),
{
    let ghost all = list.deep_view();
    let mut i: usize = 0;
    while i < list.len()
        invariant
            i <= list.len(),
            all == list.deep_view(),
            forall|j: int| 0 <= j < i ==> #[trigger] all[j] != p@,
        decreases list.len() - i,
    {
        assert(all[i as int] == list@[i as int]@);
        if list[i].same(p) {
            return true;
        }
        i = i + 1;
    }
    false
}

fn find_stores(project: &Project, env: &ResolveEnv, disk: &mut Disk) -> (r: Vec<FilePath>)
    requires
        old(disk).wf(),
    ensures
        final(disk).asked(*old(disk)),
        final(disk).holds() ==> r.deep_view() == stores(project@.root, env@.home, old(disk)@),
{
    let mut out: Vec<FilePath> = Vec::new();
    put_path(&mut out, env.home.child("Library/pnpm/store"));
    put_path(&mut out, env.home.child(".local/share/pnpm/store"));
    put_path(&mut out, env.home.child(".pnpm-store"));
    assert(out.deep_view() =~= default_stores(env@.home));
    let modules = project.root.child("node_modules/.modules.yaml");
    if let Some(text) = env.read_head(disk, &modules, MAX_MODULES_BYTES) {
        if let Some(dir) = parse_store_dir(text.as_str()) {
            let path = FilePath::from_text(dir.as_str());
            if !holds_path(&out, &path) {
                put_path(&mut out, path);
            }
        }
    }
    out
}

/// A directory that keeps links to projects.
pub open spec fn keeps_links(disk: DiskView, dir: Seq<Seq<char>>) -> bool {
    disk.is_dir(child(dir, "projects"@))
}

/// A directory one level down that keeps links to projects.
pub open spec fn inner_store(disk: DiskView, dir: Seq<Seq<char>>) -> spec_fn(Seq<char>) -> Option<
    Seq<Seq<char>>,
> {
    |name: Seq<char>|
        if disk.is_dir(child(dir, name)) && keeps_links(disk, child(dir, name)) {
            Some(child(dir, name))
        } else {
            None
        }
}

/// A directory of a store and those directly in it, as far as they keep links to projects.
pub open spec fn outer_store(disk: DiskView, root: Seq<Seq<char>>) -> spec_fn(Seq<char>) -> Seq<
    Seq<Seq<char>>,
> {
    |name: Seq<char>|
        {
            let dir = child(root, name);
            if !disk.is_dir(dir) {
                seq![]
            } else {
                (if keeps_links(disk, dir) {
                    seq![dir]
                } else {
                    seq![]
                }) + names_in(disk, dir).filter_map(inner_store(disk, dir))
            }
        }
}

/// The directories of a store, one or two levels down, that keep links to projects.
pub open spec fn projects_dirs(disk: DiskView, root: Seq<Seq<char>>) -> Seq<Seq<Seq<char>>> {
    flat(names_in(disk, root), outer_store(disk, root))
}

fn put_inner_stores(dir: &FilePath, disk: &mut Disk, out: &mut Vec<FilePath>)
    requires
        old(disk).wf(),
    ensures
        final(disk).asked(*old(disk)),
        final(disk).holds()
            ==> final(out).deep_view() == old(out).deep_view() + names_in(old(disk)@, dir@).filter_map(
            inner_store(old(disk)@, dir@),
        ),
{
    let ghost facts = disk@;
    let ghost was = out.deep_view();
    let names = list_names(disk, dir);
    let ghost all = names.deep_view();
    let ghost pick = inner_store(facts, dir@);
    let mut i: usize = 0;
    proof {
        lemma_filter_map_start(all, pick);
        assert(out.deep_view() =~= was + all.take(0).filter_map(pick));
    }
    let ghost start = *disk;
    while i < names.len()
        invariant
            i <= names.len(),
            all == names.deep_view(),
            facts == old(disk)@,
            disk.asked(*old(disk)),
            disk.holds() ==> start.holds(),
            pick == inner_store(facts, dir@),
            disk.holds() ==> out.deep_view() == was + all.take(i as int).filter_map(pick),
        decreases names.len() - i,
    {
        proof {
            assert(all[i as int] == names@[i as int]@);
            all.lemma_filter_map_take_succ(pick, i as int);
        }
        let p = dir.child(names[i].as_str());
        if disk.is_dir(&p) {
            if disk.is_dir(&p.child("projects")) {
                put_path(out, p);
            }
        }
        assert(disk.holds() ==> out.deep_view() =~= was + all.take(i + 1).filter_map(pick));
        i = i + 1;
    }
    assert(all.take(i as int) =~= all);
}

/// The directories of a store, one or two levels down, that keep links to projects.
pub fn find_projects_dirs(store_root: &FilePath, disk: &mut Disk) -> (r: Vec<FilePath>)
    requires
        old(disk).wf(),
    ensures
        final(disk).asked(*old(disk)),
        final(disk).holds() ==> r.deep_view() == projects_dirs(old(disk)@, store_root@),
{
    let ghost facts = disk@;
    let names = list_names(disk, store_root);
    let ghost all = names.deep_view();
    let ghost f = outer_store(facts, store_root@);
    let mut out: Vec<FilePath> = Vec::new();
    let mut i: usize = 0;
    proof {
        lemma_flat_start(all, f);
        assert(out.deep_view() =~= flat(all.take(0), f));
    }
    let ghost start = *disk;
    while i < names.len()
        invariant
            i <= names.len(),
            all == names.deep_view(),
            facts == old(disk)@,
            disk.asked(*old(disk)),
            disk.holds() ==> start.holds(),
            f == outer_store(facts, store_root@),
            disk.holds() ==> out.deep_view() == flat(all.take(i as int), f),
        decreases names.len() - i,
    {
        proof {
            assert(all[i as int] == names@[i as int]@);
            lemma_flat_step(all, f, i as int);
        }
        let ghost was = out.deep_view();
        let dir = store_root.child(names[i].as_str());
        if disk.is_dir(&dir) {
            if disk.is_dir(&dir.child("projects")) {
                put_path(&mut out, dir.copy());
            }
            put_inner_stores(&dir, disk, &mut out);
        }
        assert(disk.holds() ==> out.deep_view() =~= was + f(all[i as int]));
        i = i + 1;
    }
    assert(all.take(i as int) =~= all);
    out
}

/// Where a link in a directory leads.
pub open spec fn leads_to(disk: DiskView, dir: Seq<Seq<char>>, name: Seq<char>) -> Option<
    Seq<Seq<char>>,
> {
    match disk.link(child(dir, name)) {
        Some(target) => Some(
            canonical(normal_path(
                if is_absolute(target) {
                    target
                } else {
                    match crate::fspath::parent(child(dir, name)) {
                        Some(p) => joined(p, target),
                        None => target,
                    }
                },
            )),
        ),
        None => None,
    }
}

/// Whether a link in a directory leads into a project.
pub open spec fn links_into(disk: DiskView, dir: Seq<Seq<char>>, root: Seq<Seq<char>>) -> bool {
    let names = names_in(disk, dir);
    exists|i: int|
        0 <= i < names.len() && match leads_to(disk, dir, #[trigger] names[i]) {
            Some(p) => under(p, root),
            None => false,
        }
}

fn follow(dir: &FilePath, name: &str, disk: &mut Disk) -> (r: Option<FilePath>)
    requires
        old(disk).wf(),
    ensures
        final(disk).asked(*old(disk)),
        final(disk).holds() ==> r.deep_view() == leads_to(old(disk)@, dir@, name@),
{
    let link = dir.child(name);
    match disk.link(&link) {
        Some(target) => {
            let resolved = if target.is_absolute() {
                target
            } else {
                match link.parent() {
                    Some(p) => p.join(&target),
                    None => target,
                }
            };
            Some(tree_path(&normalize_path(&resolved)))
        },
        None => None,
    }
}

fn is_linked(dir: &FilePath, root: &FilePath, disk: &mut Disk) -> (r: bool)
    requires
        old(disk).wf(),
    ensures
        final(disk).asked(*old(disk)),
        final(disk).holds() ==> r == links_into(old(disk)@, dir@, root@),
{
    let ghost facts = disk@;
    let names = list_names(disk, dir);
    let ghost all = names.deep_view();
    let mut i: usize = 0;
    while i < names.len()
        invariant
            i <= names.len(),
            all == names.deep_view(),
            disk.holds() ==> all == names_in(facts, dir@),
            facts == old(disk)@,
            disk.asked(*old(disk)),
            disk.holds() ==> (forall|j: int|
                0 <= j < i ==> !(match leads_to(facts, dir@, #[trigger] all[j]) {
                    Some(p) => under(p, root@),
                    None => false,
                })),
        decreases names.len() - i,
    {
        assert(all[i as int] == names@[i as int]@);
        if let Some(p) = follow(dir, names[i].as_str(), disk) {
            if p.under(root) {
                return true;
            }
        }
        i = i + 1;
    }
    false
}

/// The claim on a directory of a store that keeps a link into the project.
pub open spec fn store_claim(p: ProjectView, disk: DiskView) -> spec_fn(Seq<Seq<char>>) -> Option<
    ClaimView,
> {
    |dir: Seq<Seq<char>>|
        if links_into(disk, child(dir, "projects"@), canonical(p.root)) {
            Some(
                own(
                    dir,
                    path_text(p.root),
                    EntryKind::PackageCache,
                    EvidenceTier::Exact,
                    "pnpm store links this project"@,
                    "pnpm store "@ + match file_name(dir) {
                        Some(n) => n,
                        None => "pnpm store"@,
                    },
                ),
            )
        } else {
            None
        }
}

/// The claims on the directories of one store.
pub open spec fn store_claims(p: ProjectView, disk: DiskView) -> spec_fn(Seq<Seq<char>>) -> Seq<
    ClaimView,
> {
    |root: Seq<Seq<char>>| projects_dirs(disk, root).filter_map(store_claim(p, disk))
}

fn put_store_claims(project: &Project, store: &FilePath, disk: &mut Disk, out: &mut Vec<Claim>)
    requires
        old(disk).wf(),
    ensures
        final(disk).asked(*old(disk)),
        final(disk).holds()
            ==> final(out).deep_view() == old(out).deep_view() + store_claims(project@, old(disk)@)(store@),
{
    let ghost facts = disk@;
    let ghost was = out.deep_view();
    let owner = project.root.text();
    let root = tree_path(&project.root);
    let dirs = find_projects_dirs(store, disk);
    let ghost all = dirs.deep_view();
    let ghost pick = store_claim(project@, facts);
    let mut i: usize = 0;
    proof {
        lemma_filter_map_start(all, pick);
        assert(out.deep_view() =~= was + all.take(0).filter_map(pick));
    }
    let ghost start = *disk;
    while i < dirs.len()
        invariant
            i <= dirs.len(),
            all == dirs.deep_view(),
            facts == old(disk)@,
            disk.asked(*old(disk)),
            disk.holds() ==> start.holds(),
            owner@ == path_text(project@.root),
            root@ == canonical(project@.root),
            pick == store_claim(project@, facts),
            disk.holds() ==> out.deep_view() == was + all.take(i as int).filter_map(pick),
        decreases dirs.len() - i,
    {
        proof {
            assert(all[i as int] == dirs@[i as int]@);
            all.lemma_filter_map_take_succ(pick, i as int);
        }
        if is_linked(&dirs[i].child("projects"), &root, disk) {
            let label = match dirs[i].file_name() {
                Some(n) => cat2("pnpm store ", n),
                None => cat2("pnpm store ", "pnpm store"),
            };
            put(
                out,
                own_claim(
                    dirs[i].copy(),
                    owner.as_str(),
                    EntryKind::PackageCache,
                    EvidenceTier::Exact,
                    "pnpm store links this project",
                    label.as_str(),
                ),
            );
        }
        assert(disk.holds() ==> out.deep_view() =~= was + all.take(i + 1).filter_map(pick));
        i = i + 1;
    }
    assert(all.take(i as int) =~= all);
}

/// The claim on a project's clone of the store.
pub open spec fn clone_claims(p: ProjectView, disk: DiskView) -> Seq<ClaimView> {
    let dir = child(p.root, "node_modules/.pnpm"@);
    if disk.present(dir) {
        seq![
            own(
                dir,
                path_text(p.root),
                EntryKind::Artifacts,
                EvidenceTier::Exact,
                "node_modules/.pnpm is a reflink clone of the pnpm store"@,
                "node_modules/.pnpm (clone of store)"@,
            ).cloned_store(),
        ]
    } else {
        seq![]
    }
}

/// The claims of a project on pnpm's stores and on its clone of one.
pub open spec fn pnpm_claims_of(p: ProjectView, home: Seq<Seq<char>>, disk: DiskView) -> Seq<
    ClaimView,
> {
    flat(stores(p.root, home, disk), store_claims(p, disk)) + clone_claims(p, disk)
}

fn pnpm_claims(project: &Project, env: &ResolveEnv, disk: &mut Disk) -> (r: Vec<Claim>)
    requires
        old(disk).wf(),
    ensures
        final(disk).asked(*old(disk)),
        final(disk).holds() ==> r.deep_view() == pnpm_claims_of(project@, env@.home, old(disk)@),
{
    let ghost facts = disk@;
    let list = find_stores(project, env, disk);
    let ghost all = list.deep_view();
    let ghost f = store_claims(project@, facts);
    let mut out: Vec<Claim> = Vec::new();
    let mut i: usize = 0;
    proof {
        lemma_flat_start(all, f);
        assert(out.deep_view() =~= flat(all.take(0), f));
    }
    let ghost start = *disk;
    while i < list.len()
        invariant
            i <= list.len(),
            all == list.deep_view(),
            facts == old(disk)@,
            disk.asked(*old(disk)),
            disk.holds() ==> start.holds(),
            f == store_claims(project@, facts),
            disk.holds() ==> out.deep_view() == flat(all.take(i as int), f),
        decreases list.len() - i,
    {
        proof {
            assert(all[i as int] == list@[i as int]@);
            lemma_flat_step(all, f, i as int);
        }
        put_store_claims(project, &list[i], disk, &mut out);
        i = i + 1;
    }
    assert(all.take(i as int) =~= all);
    let ghost was = out.deep_view();
    let dir = project.root.child("node_modules/.pnpm");
    if disk.present(&dir) {
        let owner = project.root.text();
        put(
            &mut out,
            own_claim(
                dir,
                owner.as_str(),
                EntryKind::Artifacts,
                EvidenceTier::Exact,
                "node_modules/.pnpm is a reflink clone of the pnpm store",
                "node_modules/.pnpm (clone of store)",
            ).clone_of_store(),
        );
    }
    assert(disk.holds() ==> out.deep_view() =~= was + clone_claims(project@, facts));
    out
}

/// The pairs, each once.
pub open spec fn each_once(pairs: Seq<(Seq<char>, Seq<char>)>) -> Seq<(Seq<char>, Seq<char>)>
    decreases pairs.len(),
{
    if pairs.len() == 0 {
        seq![]
    } else {
        let before = each_once(pairs.drop_last());
        if before.contains(pairs.last()) {
            before
        } else {
            before.push(pairs.last())
        }
    }
}

fn is_wanted(list: &Vec<PackageRef>, p: &PackageRef) -> (r: bool)
    ensures
        r == list.deep_view().contains(p.deep_view()),
{
    let ghost all = list.deep_view();
    let mut i: usize = 0;
    while i < list.len()
        invariant
            i <= list.len(),
            all == list.deep_view(),
            forall|j: int| 0 <= j < i ==> #[trigger] all[j] != p.deep_view(),
        decreases list.len() - i,
    {
        assert(all[i as int] == list@[i as int].deep_view());
        if same(list[i].name.as_str(), p.name.as_str()) && same(
            list[i].version.as_str(),
            p.version.as_str(),
        ) {
            return true;
        }
        i = i + 1;
    }
    false
}

fn distinct(refs: &Vec<PackageRef>) -> (r: Vec<PackageRef>)
    ensures
        r.deep_view() == each_once(refs.deep_view()),
{
    let ghost all = refs.deep_view();
    let mut out: Vec<PackageRef> = Vec::new();
    let mut i: usize = 0;
    assert(out.deep_view() =~= each_once(all.take(0)));
    while i < refs.len()
        invariant
            i <= refs.len(),
            all == refs.deep_view(),
            out.deep_view() == each_once(all.take(i as int)),
        decreases refs.len() - i,
    {
        let ghost was = out.deep_view();
        proof {
            assert(all.take(i + 1).drop_last() =~= all.take(i as int));
            assert(all.take(i + 1).last() == refs@[i as int].deep_view());
        }
        if !is_wanted(&out, &refs[i]) {
            let p = PackageRef { name: refs[i].name.clone(), version: refs[i].version.clone() };
            out.push(p);
            assert(out.deep_view() =~= was.push(p.deep_view()));
        }
        i = i + 1;
    }
    assert(all.take(i as int) =~= all);
    out
}

/// What the key of an archive holds in npm's index.
pub open spec fn archive_marker(p: (Seq<char>, Seq<char>)) -> Seq<char> {
    "/"@ + p.0 + "/-/"@ + (p.0 + "-"@ + p.1 + ".tgz"@)
}

fn marker_of(p: &PackageRef) -> (r: String)
    ensures
        r@ == archive_marker(p.deep_view()),
{
    let file = cat4(p.name.as_str(), "-", p.version.as_str(), ".tgz");
    cat4("/", p.name.as_str(), "/-/", file.as_str())
}

/// The claim on an archive of npm's cache.
pub open spec fn blob_claims(
    home: Seq<Seq<char>>,
    owner: Seq<char>,
    p: (Seq<char>, Seq<char>),
    integrity: Option<Seq<char>>,
) -> Seq<ClaimView> {
    let paths = blob_path(home, integrity);
    Seq::new(
        paths.len(),
        |i: int|
            own(
                paths[i],
                owner,
                EntryKind::PackageCache,
                EvidenceTier::Exact,
                "package-lock.json"@,
                p.0 + " "@ + p.1,
            ),
    )
}

fn put_blob_claims(
    home: &FilePath,
    owner: &str,
    p: &PackageRef,
    integrity: Option<String>,
    out: &mut Vec<Claim>,
)
    ensures
        final(out).deep_view() == old(out).deep_view() + blob_claims(
            home@,
            owner@,
            p.deep_view(),
            integrity.deep_view(),
        ),
{
    let ghost was = out.deep_view();
    let ghost want = blob_claims(home@, owner@, p.deep_view(), integrity.deep_view());
    let paths = npm_blob(home, integrity);
    let label = cat3(p.name.as_str(), " ", p.version.as_str());
    let ghost ps = paths.deep_view();
    assert(ps.len() == paths.len());
    let mut i: usize = 0;
    assert(out.deep_view() =~= was + want.take(0));
    while i < paths.len()
        invariant
            i <= paths.len(),
            ps == paths.deep_view(),
            ps.len() == want.len(),
            label@ == p.deep_view().0 + " "@ + p.deep_view().1,
            forall|j: int|
                0 <= j < want.len() ==> #[trigger] want[j] == own(
                    ps[j],
                    owner@,
                    EntryKind::PackageCache,
                    EvidenceTier::Exact,
                    "package-lock.json"@,
                    label@,
                ),
            out.deep_view() =~= was + want.take(i as int),
        decreases paths.len() - i,
    {
        assert(ps[i as int] == paths@[i as int]@);
        assert(want[i as int] == want[i as int]);
        put(
            out,
            own_claim(
                paths[i].copy(),
                owner,
                EntryKind::PackageCache,
                EvidenceTier::Exact,
                "package-lock.json",
                label.as_str(),
            ),
        );
        i = i + 1;
    }
    assert(want.take(i as int) =~= want);
}

/// The claim for a wanted package, by an entry of npm's index.
pub open spec fn wanted_claims(home: Seq<Seq<char>>, owner: Seq<char>, d: DocView) -> spec_fn(
    (Seq<char>, Seq<char>),
) -> Seq<ClaimView> {
    |p: (Seq<char>, Seq<char>)|
        match text_field(d, "key"@) {
            Some(key) => if has_text(key, archive_marker(p)) {
                blob_claims(home, owner, p, text_field(d, "integrity"@))
            } else {
                seq![]
            },
            None => seq![],
        }
}

/// The claims by a line of npm's index: a document stands from its first `{` on.
pub open spec fn line_claims(
    home: Seq<Seq<char>>,
    owner: Seq<char>,
    wanted: Seq<(Seq<char>, Seq<char>)>,
) -> spec_fn(Seq<char>) -> Seq<ClaimView> {
    |line: Seq<char>|
        if has_char(line, '{') {
            match json_document(line.skip(index_of(line, '{') as int)) {
                Some(d) => flat(wanted, wanted_claims(home, owner, d)),
                None => seq![],
            }
        } else {
            seq![]
        }
}

/// The claims for the wanted packages, by a document of npm's index.
pub fn put_wanted_claims(
    home: &FilePath,
    owner: &str,
    wanted: &Vec<PackageRef>,
    d: &Doc,
    out: &mut Vec<Claim>,
)
    ensures
        final(out).deep_view() == old(out).deep_view() + flat(
            wanted.deep_view(),
            wanted_claims(home@, owner@, d@),
        ),
{
    let ghost was = out.deep_view();
    let ghost all = wanted.deep_view();
    let ghost f = wanted_claims(home@, owner@, d@);
    let mut i: usize = 0;
    proof {
        lemma_flat_start(all, f);
        assert(out.deep_view() =~= was + flat(all.take(0), f));
    }
    while i < wanted.len()
        invariant
            i <= wanted.len(),
            all == wanted.deep_view(),
            f == wanted_claims(home@, owner@, d@),
            out.deep_view() == was + flat(all.take(i as int), f),
        decreases wanted.len() - i,
    {
        proof {
            assert(all[i as int] == wanted@[i as int].deep_view());
            lemma_flat_step(all, f, i as int);
        }
        let ghost before = out.deep_view();
        assert(before =~= before + Seq::<ClaimView>::empty());
        if let Some(key) = d.text("key") {
            let c = chars_of(key);
            let marker = marker_of(&wanted[i]);
            if find_text(c.as_slice(), marker.as_str(), 0).is_some() {
                let integrity = match d.text("integrity") {
                    Some(t) => Some(t.to_owned()),
                    None => None,
                };
                put_blob_claims(home, owner, &wanted[i], integrity, out);
            }
        }
        assert(out.deep_view() =~= before + f(all[i as int]));
        assert(out.deep_view() =~= was + flat(all.take(i + 1), f));
        i = i + 1;
    }
    assert(all.take(i as int) =~= all);
}

fn put_line_claims(
    home: &FilePath,
    owner: &str,
    wanted: &Vec<PackageRef>,
    line: &str,
    out: &mut Vec<Claim>,
)
    ensures
        final(out).deep_view() == old(out).deep_view() + line_claims(
            home@,
            owner@,
            wanted.deep_view(),
        )(line@),
{
    let ghost was = out.deep_view();
    assert(was =~= was + Seq::<ClaimView>::empty());
    let c = chars_of(line);
    if holds_char(c.as_slice(), '{') {
        let k = find_char(c.as_slice(), '{');
        let tail = slice_subrange(c.as_slice(), k, c.len());
        assert(tail@ =~= line@.skip(k as int));
        if let Some(d) = parse_json(string_of(tail).as_str()) {
            put_wanted_claims(home, owner, wanted, &d, out);
        }
    }
}

/// The claims by a file of npm's index.
pub open spec fn index_file_claims(
    disk: DiskView,
    home: Seq<Seq<char>>,
    owner: Seq<char>,
    wanted: Seq<(Seq<char>, Seq<char>)>,
) -> spec_fn(Seq<Seq<char>>) -> Seq<ClaimView> {
    |path: Seq<Seq<char>>|
        match disk.text(path) {
            Some(text) => flat(lines(text), line_claims(home, owner, wanted)),
            None => seq![],
        }
}

fn put_index_file_claims(
    home: &FilePath,
    owner: &str,
    wanted: &Vec<PackageRef>,
    path: &FilePath,
    disk: &mut Disk,
    out: &mut Vec<Claim>,
)
    requires
        old(disk).wf(),
    ensures
        final(disk).asked(*old(disk)),
        final(disk).holds() ==> final(out).deep_view() == old(out).deep_view() + index_file_claims(
            old(disk)@,
            home@,
            owner@,
            wanted.deep_view(),
        )(path@),
{
    let ghost was = out.deep_view();
    match disk.text(path) {
        Some(text) => {
            let l = lines_of(text.as_str());
            let ghost all = l.deep_view();
            let ghost f = line_claims(home@, owner@, wanted.deep_view());
            let mut i: usize = 0;
            proof {
                lemma_flat_start(all, f);
                assert(out.deep_view() =~= was + flat(all.take(0), f));
            }
            while i < l.len()
                invariant
                    i <= l.len(),
                    all == l.deep_view(),
                    f == line_claims(home@, owner@, wanted.deep_view()),
                    disk.holds() ==> out.deep_view() == was + flat(all.take(i as int), f),
                decreases l.len() - i,
            {
                proof {
                    assert(all[i as int] == l@[i as int]@);
                    lemma_flat_step(all, f, i as int);
                }
                put_line_claims(home, owner, wanted, l[i].as_str(), out);
                assert(disk.holds() ==> out.deep_view() =~= was + flat(all.take(i + 1), f));
                i = i + 1;
            }
            assert(all.take(i as int) =~= all);
        },
        None => {
            assert(out.deep_view() =~= was + Seq::<ClaimView>::empty());
        },
    }
}

/// The files of npm's index that are read.
pub open spec fn index_files(disk: DiskView, home: Seq<Seq<char>>) -> Seq<Seq<Seq<char>>> {
    first_of(
        files_below(disk, seq![child(home, ".npm/_cacache/index-v5"@)], u64::MAX as nat),
        MAX_INDEX_FILES as nat,
    )
}

/// The claims on what npm's cache keeps of the wanted packages.
pub open spec fn cache_claims(
    disk: DiskView,
    home: Seq<Seq<char>>,
    owner: Seq<char>,
    wanted: Seq<(Seq<char>, Seq<char>)>,
) -> Seq<ClaimView> {
    if wanted.len() == 0 {
        seq![]
    } else {
        flat(index_files(disk, home), index_file_claims(disk, home, owner, wanted))
    }
}

fn npm_cache_claims(home: &FilePath, owner: &str, wanted: &Vec<PackageRef>, disk: &mut Disk) -> (r: Vec<
    Claim,
>)
    requires
        old(disk).wf(),
    ensures
        final(disk).asked(*old(disk)),
        final(disk).holds()
            ==> r.deep_view() == cache_claims(old(disk)@, home@, owner@, wanted.deep_view()),
{
    let ghost facts = disk@;
    let mut out: Vec<Claim> = Vec::new();
    assert(wanted.deep_view().len() == wanted.len());
    if wanted.len() == 0 {
        assert(out.deep_view() =~= seq![]);
        return out;
    }
    let mut roots: Vec<FilePath> = Vec::new();
    put_path(&mut roots, home.child(".npm/_cacache/index-v5"));
    assert(roots.deep_view() =~= seq![child(home@, ".npm/_cacache/index-v5"@)]);
    let files = walk_files(disk, roots, MAX_INDEX_FILES);
    let ghost all = files.deep_view();
    let ghost f = index_file_claims(facts, home@, owner@, wanted.deep_view());
    let mut i: usize = 0;
    proof {
        lemma_flat_start(all, f);
        assert(out.deep_view() =~= flat(all.take(0), f));
    }
    let ghost start = *disk;
    while i < files.len()
        invariant
            i <= files.len(),
            all == files.deep_view(),
            facts == old(disk)@,
            disk.asked(*old(disk)),
            disk.holds() ==> start.holds(),
            f == index_file_claims(facts, home@, owner@, wanted.deep_view()),
            disk.holds() ==> out.deep_view() == flat(all.take(i as int), f),
        decreases files.len() - i,
    {
        proof {
            assert(all[i as int] == files@[i as int]@);
            lemma_flat_step(all, f, i as int);
        }
        put_index_file_claims(home, owner, wanted, &files[i], disk, &mut out);
        i = i + 1;
    }
    assert(all.take(i as int) =~= all);
    out
}

/// The claims of a project on npm's cache.
pub open spec fn npm_claims_of(p: ProjectView, home: Seq<Seq<char>>, disk: DiskView) -> Seq<
    ClaimView,
> {
    match disk.head(child(p.root, "package-lock.json"@), MAX_LOCKFILE_BYTES) {
        Some(text) => cache_claims(
            disk,
            home,
            path_text(p.root),
            each_once(
                match json_document(text) {
                    Some(d) => locked_packages(d),
                    None => seq![],
                },
            ),
        ),
        None => seq![],
    }
}

fn npm_claims(project: &Project, env: &ResolveEnv, disk: &mut Disk) -> (r: Vec<Claim>)
    requires
        old(disk).wf(),
    ensures
        final(disk).asked(*old(disk)),
        final(disk).holds() ==> r.deep_view() == npm_claims_of(project@, env@.home, old(disk)@),
{
    match env.read_head(disk, &project.root.child("package-lock.json"), MAX_LOCKFILE_BYTES) {
        Some(text) => {
            let refs = package_lock(text.as_str());
            let wanted = distinct(&refs);
            let owner = project.root.text();
            npm_cache_claims(&env.home, owner.as_str(), &wanted, disk)
        },
        None => {
            let none: Vec<Claim> = Vec::new();
            assert(none.deep_view() =~= seq![]);
            none
        },
    }
}

/// How the cached archives of a package are called: by yarn, and by bun.
pub open spec fn cached_prefix(yarn: bool, p: (Seq<char>, Seq<char>)) -> Seq<char> {
    if yarn {
        swapped(p.0, '/', '-') + "-npm-"@ + p.1 + "-"@
    } else {
        p.0 + "@"@ + p.1
    }
}

/// The file that yarn, or bun, locks versions in.
pub open spec fn lock_name(yarn: bool) -> Seq<char> {
    if yarn {
        "yarn.lock"@
    } else {
        "bun.lock"@
    }
}

/// The claims on the cached archives of a package.
pub open spec fn cached_claims(disk: DiskView, dir: Seq<Seq<char>>, owner: Seq<char>, yarn: bool) -> spec_fn(
    (Seq<char>, Seq<char>),
) -> Seq<ClaimView> {
    |p: (Seq<char>, Seq<char>)|
        prefixed_claims(
            disk,
            dir,
            owner,
            EvidenceTier::Exact,
            cached_prefix(yarn, p),
            lock_name(yarn),
            p.0 + " "@ + p.1,
        )
}

fn make_cached_claims(
    pairs: &Vec<(String, String)>,
    dir: &FilePath,
    owner: &str,
    yarn: bool,
    disk: &mut Disk,
) -> (r: Vec<Claim>)
    requires
        old(disk).wf(),
    ensures
        final(disk).asked(*old(disk)),
        final(disk).holds() ==> r.deep_view() == flat(
            pairs.deep_view(),
            cached_claims(old(disk)@, dir@, owner@, yarn),
        ),
{
    let ghost facts = disk@;
    let ghost all = pairs.deep_view();
    let ghost f = cached_claims(facts, dir@, owner@, yarn);
    let evidence = if yarn {
        "yarn.lock"
    } else {
        "bun.lock"
    };
    let mut out: Vec<Claim> = Vec::new();
    let mut i: usize = 0;
    proof {
        lemma_flat_start(all, f);
        assert(out.deep_view() =~= flat(all.take(0), f));
    }
    while i < pairs.len()
        invariant
            i <= pairs.len(),
            all == pairs.deep_view(),
            facts == old(disk)@,
            disk.asked(*old(disk)),
            evidence@ == lock_name(yarn),
            f == cached_claims(facts, dir@, owner@, yarn),
            disk.holds() ==> out.deep_view() == flat(all.take(i as int), f),
        decreases pairs.len() - i,
    {
        let name = pairs[i].0.as_str();
        let version = pairs[i].1.as_str();
        proof {
            assert(all[i as int] == (name@, version@));
            lemma_flat_step(all, f, i as int);
        }
        let prefix = if yarn {
            let c = chars_of(name);
            let flat_name = string_of(swap_char(c.as_slice(), '/', '-').as_slice());
            cat4(flat_name.as_str(), "-npm-", version, "-")
        } else {
            cat3(name, "@", version)
        };
        let label = cat3(name, " ", version);
        put_prefixed_claims(
            dir,
            owner,
            EvidenceTier::Exact,
            prefix.as_str(),
            evidence,
            label.as_str(),
            disk,
            &mut out,
        );
        i = i + 1;
    }
    assert(all.take(i as int) =~= all);
    out
}

/// The claims of a project on yarn's cache.
pub open spec fn yarn_claims_of(p: ProjectView, home: Seq<Seq<char>>, disk: DiskView) -> Seq<
    ClaimView,
> {
    match disk.head(child(p.root, "yarn.lock"@), MAX_LOCKFILE_BYTES) {
        Some(text) => flat(
            lines(text).filter_map(yarn_line()),
            cached_claims(
                disk,
                child(home, "Library/Caches/Yarn/berry/cache"@),
                path_text(p.root),
                true,
            ),
        ),
        None => seq![],
    }
}

fn yarn_berry_claims(project: &Project, env: &ResolveEnv, disk: &mut Disk) -> (r: Vec<Claim>)
    requires
        old(disk).wf(),
    ensures
        final(disk).asked(*old(disk)),
        final(disk).holds() ==> r.deep_view() == yarn_claims_of(project@, env@.home, old(disk)@),
{
    match env.read_head(disk, &project.root.child("yarn.lock"), MAX_LOCKFILE_BYTES) {
        Some(text) => {
            let pairs = yarn_berry(text.as_str());
            let owner = project.root.text();
            let dir = env.home.child("Library/Caches/Yarn/berry/cache");
            make_cached_claims(&pairs, &dir, owner.as_str(), true, disk)
        },
        None => {
            let none: Vec<Claim> = Vec::new();
            assert(none.deep_view() =~= seq![]);
            none
        },
    }
}

/// The claims of a project on bun's cache: on the archives that `bun.lock` names or, where there is
/// only a `bun.lockb`, on all of it.
pub open spec fn bun_claims_of(p: ProjectView, home: Seq<Seq<char>>, disk: DiskView) -> Seq<
    ClaimView,
> {
    let dir = child(home, ".bun/install/cache"@);
    match disk.head(child(p.root, "bun.lock"@), MAX_LOCKFILE_BYTES) {
        Some(text) => flat(
            match commented_json(text) {
                Some(d) => bun_packages(d),
                None => seq![],
            },
            cached_claims(disk, dir, path_text(p.root), false),
        ),
        None => if disk.present(child(p.root, "bun.lockb"@)) && disk.present(dir) {
            seq![
                own(
                    dir,
                    path_text(p.root),
                    EntryKind::PackageCache,
                    EvidenceTier::EcosystemDefault,
                    "bun.lockb present"@,
                    "bun cache"@,
                ),
            ]
        } else {
            seq![]
        },
    }
}

fn bun_claims(project: &Project, env: &ResolveEnv, disk: &mut Disk) -> (r: Vec<Claim>)
    requires
        old(disk).wf(),
    ensures
        final(disk).asked(*old(disk)),
        final(disk).holds() ==> r.deep_view() == bun_claims_of(project@, env@.home, old(disk)@),
{
    let owner = project.root.text();
    let dir = env.home.child(".bun/install/cache");
    match env.read_head(disk, &project.root.child("bun.lock"), MAX_LOCKFILE_BYTES) {
        Some(text) => {
            let pairs = bun_lock(text.as_str());
            make_cached_claims(&pairs, &dir, owner.as_str(), false, disk)
        },
        None => {
            let mut out: Vec<Claim> = Vec::new();
            if disk.present(&project.root.child("bun.lockb")) {
                if disk.present(&dir) {
                    put(
                        &mut out,
                        own_claim(
                            dir,
                            owner.as_str(),
                            EntryKind::PackageCache,
                            EvidenceTier::EcosystemDefault,
                            "bun.lockb present",
                            "bun cache",
                        ),
                    );
                }
            }
            assert(disk.holds()
                ==> out.deep_view() =~= bun_claims_of(project@, env@.home, old(disk)@));
            out
        },
    }
}

/// The pin in the first line of a text.
pub open spec fn first_line_pin(text: Seq<char>) -> Option<Seq<char>> {
    if lines(text).len() > 0 {
        node_pin(lines(text)[0])
    } else {
        None
    }
}

fn pin_in_first_line(text: &str) -> (r: Option<String>)
    ensures
        r.deep_view() == first_line_pin(text@),
{
    let l = lines_of(text);
    assert(lines(text@).len() == l.len());
    if l.len() > 0 {
        assert(lines(text@)[0] == l@[0]@);
        normalise_node_pin(l[0].as_str())
    } else {
        None
    }
}

/// The pin in a line of `.tool-versions`.
pub open spec fn tools_line() -> spec_fn(Seq<char>) -> Option<Seq<char>> {
    |line: Seq<char>|
        if words(line).len() >= 2 && words(line)[0] == "nodejs"@ {
            node_pin(words(line)[1])
        } else {
            None
        }
}

fn pin_in_tools_line(line: &str) -> (r: Option<String>)
    ensures
        r.deep_view() == tools_line()(line@),
{
    let c = chars_of(line);
    if let Some((tool, rest)) = next_word(c.as_slice()) {
        if same(string_of(tool).as_str(), "nodejs") {
            if let Some((version, more)) = next_word(rest) {
                return normalise_node_pin(string_of(version).as_str());
            }
        }
    }
    None
}

fn pin_in_tools(text: &str) -> (r: Option<String>)
    ensures
        r.deep_view() == first_some(lines(text@), tools_line()),
{
    let l = lines_of(text);
    let ghost all = lines(text@);
    let ghost f = tools_line();
    let mut i: usize = 0;
    assert(all.skip(0) =~= all);
    while i < l.len()
        invariant
            i <= l.len(),
            all == l.deep_view(),
            all == lines(text@),
            f == tools_line(),
            first_some(all.skip(i as int), f) == first_some(all, f),
        decreases l.len() - i,
    {
        proof {
            assert(all[i as int] == l@[i as int]@);
            lemma_first_some_step(all, f, i as int);
        }
        let found = pin_in_tools_line(l[i].as_str());
        if found.is_some() {
            return found;
        }
        i = i + 1;
    }
    None
}

/// The value of `node` in a line.
pub open spec fn mise_line() -> spec_fn(Seq<char>) -> Option<Seq<char>> {
    |line: Seq<char>|
        match without_prefix(trim(line), "node"@) {
            Some(rest) => match without_prefix(trim_start(rest), "="@) {
                Some(rest) => {
                    let value = trim_where(trim_where(trim(rest), just('"')), just('\''));
                    if value.len() > 0 {
                        Some(value)
                    } else {
                        None
                    }
                },
                None => None,
            },
            None => None,
        }
}

fn node_in_mise_line(line: &str) -> (r: Option<String>)
    ensures
        r.deep_view() == mise_line()(line@),
{
    let c = chars_of(line);
    if let Some(rest) = strip_prefix(trimmed(c.as_slice()), "node") {
        if let Some(rest) = strip_prefix(trimmed_start(rest), "=") {
            let value = trimmed_char(trimmed_char(trimmed(rest), '"'), '\'');
            if value.len() > 0 {
                return Some(string_of(value));
            }
        }
    }
    None
}

/// The Node version that the text of a `mise.toml` gives.
pub fn parse_mise_node_version(text: &str) -> (r: Option<String>)
    ensures
        r.deep_view() == first_some(lines(text@), mise_line()),
{
    let l = lines_of(text);
    let ghost all = lines(text@);
    let ghost f = mise_line();
    let mut i: usize = 0;
    assert(all.skip(0) =~= all);
    while i < l.len()
        invariant
            i <= l.len(),
            all == l.deep_view(),
            all == lines(text@),
            f == mise_line(),
            first_some(all.skip(i as int), f) == first_some(all, f),
        decreases l.len() - i,
    {
        proof {
            assert(all[i as int] == l@[i as int]@);
            lemma_first_some_step(all, f, i as int);
        }
        let found = node_in_mise_line(l[i].as_str());
        if found.is_some() {
            return found;
        }
        i = i + 1;
    }
    None
}

/// The pin in the text of a `mise.toml`.
pub open spec fn mise_pin(text: Seq<char>) -> Option<Seq<char>> {
    match first_some(lines(text), mise_line()) {
        Some(v) => node_pin(v),
        None => None,
    }
}

fn pin_in_mise(text: &str) -> (r: Option<String>)
    ensures
        r.deep_view() == mise_pin(text@),
{
    match parse_mise_node_version(text) {
        Some(v) => normalise_node_pin(v.as_str()),
        None => None,
    }
}

/// The pin under `volta` in a `package.json`.
pub open spec fn volta_pin(d: DocView) -> Option<Seq<char>> {
    match field(d, "volta"@) {
        Some(v) => match text_field(v, "node"@) {
            Some(t) => node_pin(t),
            None => None,
        },
        None => None,
    }
}

/// The pin under `volta` in a parsed `package.json`.
pub fn pin_in_package(d: &Doc) -> (r: Option<String>)
    ensures
        r.deep_view() == volta_pin(d@),
{
    match d.get("volta") {
        Some(v) => match v.text("node") {
            Some(t) => normalise_node_pin(t),
            None => None,
        },
        None => None,
    }
}

/// Where a project may pin its Node version, in the order in which the places are looked at.
#[derive(Clone, Copy, Debug, PartialEq, Eq, Structural)]
pub enum PinFile {
    Nvmrc,
    NodeVersion,
    ToolVersions,
    HiddenMise,
    Mise,
    Package,
}

/// The file's name.
pub open spec fn pin_file(f: PinFile) -> Seq<char> {
    match f {
        PinFile::Nvmrc => ".nvmrc"@,
        PinFile::NodeVersion => ".node-version"@,
        PinFile::ToolVersions => ".tool-versions"@,
        PinFile::HiddenMise => ".mise.toml"@,
        PinFile::Mise => "mise.toml"@,
        PinFile::Package => "package.json"@,
    }
}

/// How much of the file is read.
pub open spec fn pin_cap(f: PinFile) -> usize {
    match f {
        PinFile::Nvmrc => 256,
        PinFile::NodeVersion => 256,
        PinFile::ToolVersions => 4096,
        PinFile::HiddenMise => 4096,
        PinFile::Mise => 4096,
        PinFile::Package => MAX_PACKAGE_BYTES,
    }
}

/// The pin in the text of such a file.
pub open spec fn pin_in(f: PinFile, text: Seq<char>) -> Option<Seq<char>> {
    match f {
        PinFile::Nvmrc => first_line_pin(text),
        PinFile::NodeVersion => first_line_pin(text),
        PinFile::ToolVersions => first_some(lines(text), tools_line()),
        PinFile::HiddenMise => mise_pin(text),
        PinFile::Mise => mise_pin(text),
        PinFile::Package => match json_document(text) {
            Some(d) => volta_pin(d),
            None => None,
        },
    }
}

/// The pin in such a file of a project.
pub open spec fn pin_at(disk: DiskView, root: Seq<Seq<char>>) -> spec_fn(PinFile) -> Option<Seq<char>> {
    |f: PinFile|
        match disk.head(child(root, pin_file(f)), pin_cap(f)) {
            Some(text) => pin_in(f, text),
            None => None,
        }
}

/// The files in the order in which they are looked at.
pub open spec fn pin_files() -> Seq<PinFile> {
    seq![
        PinFile::Nvmrc,
        PinFile::NodeVersion,
        PinFile::ToolVersions,
        PinFile::HiddenMise,
        PinFile::Mise,
        PinFile::Package,
    ]
}

fn read_pin_file(f: PinFile, project: &Project, env: &ResolveEnv, disk: &mut Disk) -> (r: Option<
    String,
>)
    requires
        old(disk).wf(),
    ensures
        final(disk).asked(*old(disk)),
        final(disk).holds() ==> r.deep_view() == pin_at(old(disk)@, project@.root)(f),
{
    let (name, cap) = match f {
        PinFile::Nvmrc => (".nvmrc", 256),
        PinFile::NodeVersion => (".node-version", 256),
        PinFile::ToolVersions => (".tool-versions", 4096),
        PinFile::HiddenMise => (".mise.toml", 4096),
        PinFile::Mise => ("mise.toml", 4096),
        PinFile::Package => ("package.json", MAX_PACKAGE_BYTES),
    };
    match env.read_head(disk, &project.root.child(name), cap) {
        Some(text) => match f {
            PinFile::Nvmrc => pin_in_first_line(text.as_str()),
            PinFile::NodeVersion => pin_in_first_line(text.as_str()),
            PinFile::ToolVersions => pin_in_tools(text.as_str()),
            PinFile::HiddenMise => pin_in_mise(text.as_str()),
            PinFile::Mise => pin_in_mise(text.as_str()),
            PinFile::Package => match parse_json(text.as_str()) {
                Some(d) => pin_in_package(&d),
                None => None,
            },
        },
        None => None,
    }
}

/// The Node version that a project pins, in the first file that gives one.
pub fn node_version_pin(project: &Project, env: &ResolveEnv, disk: &mut Disk) -> (r: Option<String>)
    requires
        old(disk).wf(),
    ensures
        final(disk).asked(*old(disk)),
        final(disk).holds()
            ==> r.deep_view() == first_some(pin_files(), pin_at(old(disk)@, project@.root)),
{
    let ghost facts = disk@;
    let files = vec![
        PinFile::Nvmrc,
        PinFile::NodeVersion,
        PinFile::ToolVersions,
        PinFile::HiddenMise,
        PinFile::Mise,
        PinFile::Package,
    ];
    let ghost all = pin_files();
    let ghost f = pin_at(facts, project@.root);
    let mut i: usize = 0;
    assert(files@ =~= all);
    assert(all.skip(0) =~= all);
    while i < files.len()
        invariant
            i <= files.len(),
            all == files@,
            all == pin_files(),
            facts == old(disk)@,
            disk.asked(*old(disk)),
            f == pin_at(facts, project@.root),
            disk.holds() ==> first_some(all.skip(i as int), f) == first_some(all, f),
        decreases files.len() - i,
    {
        proof {
            lemma_first_some_step(all, f, i as int);
        }
        let found = read_pin_file(files[i], project, env, disk);
        if found.is_some() {
            return found;
        }
        i = i + 1;
    }
    None
}

/// A name without each `v` at its front.
pub open spec fn digits(s: Seq<char>) -> Seq<char> {
    s.skip(span(s, just('v')) as int)
}

fn without_vs(s: &str) -> (r: String)
    ensures
        r@ == digits(s@),
{
    let c = chars_of(s);
    let mut i: usize = 0;
    while i < c.len() && c[i] == 'v'
        invariant
            i <= c.len(),
            c@ == s@,
            forall|j: int| 0 <= j < i ==> just('v')(#[trigger] c@[j]),
        decreases c.len() - i,
    {
        i = i + 1;
    }
    proof {
        crate::text::lemma_span_is(c@, just('v'), i as nat);
    }
    let tail = slice_subrange(c.as_slice(), i, c.len());
    assert(tail@ =~= s@.skip(i as int));
    string_of(tail)
}

/// Whether a version goes on from a pin, if at all, with a further part.
pub open spec fn goes_on_from(pin: Seq<char>, version: Seq<char>) -> bool {
    starts(version, pin) && {
        let rest = version.skip(pin.len() as int);
        rest.len() == 0 || rest[0] == '.'
    }
}

fn is_going_on(pin: &str, version: &str) -> (r: bool)
    ensures
        r == goes_on_from(pin@, version@),
{
    let c = chars_of(version);
    match strip_prefix(c.as_slice(), pin) {
        Some(rest) => rest.len() == 0 || rest[0] == '.',
        None => false,
    }
}

/// The place of the highest version that goes on from the pin among the first `n` candidates.
pub open spec fn highest_place(
    pin: Seq<char>,
    names: Seq<Seq<char>>,
    versions: Seq<Option<SemVersionView>>,
    n: int,
) -> Option<int>
    decreases n,
{
    if n <= 0 {
        None
    } else {
        let best = highest_place(pin, names, versions, n - 1);
        match versions[n - 1] {
            Some(v) => if !goes_on_from(digits(pin), digits(names[n - 1])) {
                best
            } else if best is Some && !semver_after(v, versions[best->0]->0) {
                best
            } else {
                Some(n - 1)
            },
            None => best,
        }
    }
}

/// The highest version that goes on from the pin, given the candidates' versions.
pub open spec fn highest(
    pin: Seq<char>,
    names: Seq<Seq<char>>,
    versions: Seq<Option<SemVersionView>>,
) -> Option<Seq<char>> {
    match highest_place(pin, names, versions, names.len() as int) {
        Some(i) => Some(names[i]),
        None => None,
    }
}

/// The names whose versions go on from the pin.
pub open spec fn within(pin: Seq<char>) -> spec_fn(Seq<char>) -> bool {
    |name: Seq<char>| goes_on_from(digits(pin), digits(name))
}

/// The highest version that goes on from the pin, given the candidates' versions.
pub fn highest_of(pin: &str, names: &Vec<String>, versions: &Vec<Option<SemVersion>>) -> (r: Option<
    String,
>)
    requires
        names.len() == versions.len(),
    ensures
        r.deep_view() == highest(pin@, names.deep_view(), versions.deep_view()),
        is_newest(names.deep_view(), versions.deep_view(), within(pin@), r.deep_view()),
{
    let ghost ns = names.deep_view();
    let ghost vs = versions.deep_view();
    let bare = without_vs(pin);
    let mut best: Option<usize> = None;
    let mut i: usize = 0;
    while i < names.len()
        invariant
            i <= names.len(),
            names.len() == versions.len(),
            bare@ == digits(pin@),
            ns == names.deep_view(),
            vs == versions.deep_view(),
            best is Some ==> best->0 < i && vs[best->0 as int] is Some && within(pin@)(
                ns[best->0 as int],
            ),
            best is None ==> forall|j: int|
                0 <= j < i && within(pin@)(#[trigger] ns[j]) ==> vs[j] is None,
            best is Some ==> forall|j: int|
                0 <= j < i && within(pin@)(#[trigger] ns[j]) && vs[j] is Some ==> numbers_le(
                    vs[j]->0,
                    vs[best->0 as int]->0,
                ),
            highest_place(pin@, ns, vs, i as int) == (match best {
                Some(b) => Some(b as int),
                None => None,
            }),
        decreases names.len() - i,
    {
        assert(ns[i as int] == names@[i as int]@);
        assert(vs[i as int] == versions@[i as int].deep_view());
        if let Some(v) = &versions[i] {
            if is_going_on(bare.as_str(), without_vs(names[i].as_str()).as_str()) {
                let better = match best {
                    None => true,
                    Some(b) => {
                        assert(vs[b as int] == versions@[b as int].deep_view());
                        match &versions[b] {
                            Some(x) => version_after(v, x),
                            None => true,
                        }
                    },
                };
                if better {
                    best = Some(i);
                }
            }
        }
        i = i + 1;
    }
    match best {
        Some(b) => {
            assert(ns[b as int] == names@[b as int]@);
            assert(none_higher(ns, vs, within(pin@), b as int));
            Some(names[b].clone())
        },
        None => None,
    }
}

/// The candidates' versions, as far as their names are versions.
pub open spec fn dir_versions(names: Seq<Seq<char>>) -> Seq<Option<SemVersionView>> {
    Seq::new(names.len(), |i: int| semver_of(digits(names[i])))
}

/// The highest version among the candidates that goes on from the pin: `v24` stands for `v24.15.0`
/// and not for `v240.1.0`. A candidate that is no semantic version is left out.
pub fn newest_matching_version_dir(pin: &str, candidates: &Vec<String>) -> (r: Option<String>)
    ensures
        r.deep_view() == highest(
            pin@,
            candidates.deep_view(),
            dir_versions(candidates.deep_view()),
        ),
        is_newest(
            candidates.deep_view(),
            dir_versions(candidates.deep_view()),
            within(pin@),
            r.deep_view(),
        ),
{
    let ghost ns = candidates.deep_view();
    let mut versions: Vec<Option<SemVersion>> = Vec::new();
    let mut i: usize = 0;
    while i < candidates.len()
        invariant
            i <= candidates.len(),
            ns == candidates.deep_view(),
            versions.len() == i,
            versions.deep_view() =~= dir_versions(ns).take(i as int),
        decreases candidates.len() - i,
    {
        assert(ns[i as int] == candidates@[i as int]@);
        let v = parse_version(without_vs(candidates[i].as_str()).as_str());
        let ghost was = versions.deep_view();
        versions.push(v);
        assert(versions.deep_view() =~= was.push(v.deep_view()));
        i = i + 1;
    }
    assert(dir_versions(ns).take(i as int) =~= dir_versions(ns));
    highest_of(pin, candidates, &versions)
}

/// The name of a version's directory, with a `v` at its front.
pub open spec fn with_v(name: Seq<char>) -> Seq<char> {
    if starts(name, "v"@) {
        name
    } else {
        "v"@ + name
    }
}

/// The versions installed in one place: their names and where they lie.
pub open spec fn installed_in(disk: DiskView) -> spec_fn(Seq<Seq<char>>) -> Seq<
    (Seq<char>, Seq<Seq<char>>),
> {
    |root: Seq<Seq<char>>|
        {
            let names = real_dirs(disk, root);
            Seq::new(names.len(), |i: int| (with_v(names[i]), child(root, names[i])))
        }
}

/// Where Node versions may be installed.
pub open spec fn node_roots(home: Seq<Seq<char>>) -> Seq<Seq<Seq<char>>> {
    seq![
        child(home, ".nvm/versions/node"@),
        child(home, ".fnm/node-versions"@),
        child(home, ".volta/tools/image/node"@),
        child(home, ".local/share/mise/installs/node"@),
        child(home, "Library/pnpm/nodejs"@),
    ]
}

/// All installed Node versions.
pub open spec fn installed(disk: DiskView, home: Seq<Seq<char>>) -> Seq<
    (Seq<char>, Seq<Seq<char>>),
> {
    flat(node_roots(home), installed_in(disk))
}

/// The versions installed in one place: their names, with a `v` at the front, and where they lie.
pub fn list_version_dirs(root: &FilePath, disk: &mut Disk) -> (r: Vec<(String, FilePath)>)
    requires
        old(disk).wf(),
    ensures
        final(disk).asked(*old(disk)),
        final(disk).holds() ==> r.deep_view() == installed_in(old(disk)@)(root@),
{
    let ghost want = installed_in(disk@)(root@);
    let names = real_dir_names(disk, root);
    let ghost ns = names.deep_view();
    let mut out: Vec<(String, FilePath)> = Vec::new();
    let mut i: usize = 0;
    assert(ns.len() == names.len());
    while i < names.len()
        invariant
            i <= names.len(),
            ns == names.deep_view(),
            disk.holds()
                ==> want == Seq::new(ns.len(), |i: int| (with_v(ns[i]), child(root@, ns[i]))),
            disk.holds() ==> out.deep_view() =~= want.take(i as int),
        decreases names.len() - i,
    {
        assert(ns[i as int] == names@[i as int]@);
        let name = names[i].as_str();
        let normal = if str_starts(name, "v") {
            names[i].clone()
        } else {
            cat2("v", name)
        };
        let ghost was = out.deep_view();
        let pair = (normal, root.child(name));
        out.push(pair);
        assert(out.deep_view() =~= was.push(pair.deep_view()));
        assert(disk.holds() ==> want[i as int] == pair.deep_view());
        i = i + 1;
    }
    assert(disk.holds() ==> want.take(i as int) =~= want);
    out
}

fn list_installed(home: &FilePath, disk: &mut Disk) -> (r: Vec<(String, FilePath)>)
    requires
        old(disk).wf(),
    ensures
        final(disk).asked(*old(disk)),
        final(disk).holds() ==> r.deep_view() == installed(old(disk)@, home@),
{
    let ghost facts = disk@;
    let mut roots: Vec<FilePath> = Vec::new();
    put_path(&mut roots, home.child(".nvm/versions/node"));
    put_path(&mut roots, home.child(".fnm/node-versions"));
    put_path(&mut roots, home.child(".volta/tools/image/node"));
    put_path(&mut roots, home.child(".local/share/mise/installs/node"));
    put_path(&mut roots, home.child("Library/pnpm/nodejs"));
    let ghost all = node_roots(home@);
    let ghost f = installed_in(facts);
    let mut out: Vec<(String, FilePath)> = Vec::new();
    let mut i: usize = 0;
    proof {
        assert(roots.deep_view() =~= all);
        lemma_flat_start(all, f);
        assert(out.deep_view() =~= flat(all.take(0), f));
    }
    while i < roots.len()
        invariant
            i <= roots.len(),
            all == roots.deep_view(),
            facts == old(disk)@,
            disk.asked(*old(disk)),
            f == installed_in(facts),
            disk.holds() ==> out.deep_view() == flat(all.take(i as int), f),
        decreases roots.len() - i,
    {
        proof {
            assert(all[i as int] == roots@[i as int]@);
            lemma_flat_step(all, f, i as int);
        }
        let ghost was = out.deep_view();
        let mut found = list_version_dirs(&roots[i], disk);
        let ghost more = found.deep_view();
        out.append(&mut found);
        assert(out.deep_view() =~= was + more);
        i = i + 1;
    }
    assert(all.take(i as int) =~= all);
    out
}

/// The names of the installed versions.
pub open spec fn pair_names(pairs: Seq<(Seq<char>, Seq<Seq<char>>)>) -> Seq<Seq<char>> {
    Seq::new(pairs.len(), |i: int| pairs[i].0)
}

/// Where the first version of this name lies.
pub open spec fn place_of(name: Seq<char>) -> spec_fn((Seq<char>, Seq<Seq<char>>)) -> Option<
    Seq<Seq<char>>,
> {
    |pair: (Seq<char>, Seq<Seq<char>>)|
        if pair.0 == name {
            Some(pair.1)
        } else {
            None
        }
}

fn names_of(pairs: &Vec<(String, FilePath)>) -> (r: Vec<String>)
    ensures
        r.deep_view() == pair_names(pairs.deep_view()),
{
    let ghost all = pairs.deep_view();
    let mut out: Vec<String> = Vec::new();
    let mut i: usize = 0;
    while i < pairs.len()
        invariant
            i <= pairs.len(),
            all == pairs.deep_view(),
            out.deep_view() =~= pair_names(all).take(i as int),
        decreases pairs.len() - i,
    {
        let ghost was = out.deep_view();
        assert(all[i as int] == pairs@[i as int].deep_view());
        out.push(pairs[i].0.clone());
        assert(out.deep_view() =~= was.push(all[i as int].0));
        i = i + 1;
    }
    assert(pair_names(all).take(i as int) =~= pair_names(all));
    out
}

fn find_place(pairs: &Vec<(String, FilePath)>, name: &str) -> (r: Option<FilePath>)
    ensures
        r.deep_view() == first_some(pairs.deep_view(), place_of(name@)),
{
    let ghost all = pairs.deep_view();
    let ghost f = place_of(name@);
    let mut i: usize = 0;
    assert(all.skip(0) =~= all);
    while i < pairs.len()
        invariant
            i <= pairs.len(),
            all == pairs.deep_view(),
            f == place_of(name@),
            first_some(all.skip(i as int), f) == first_some(all, f),
        decreases pairs.len() - i,
    {
        proof {
            assert(all[i as int] == pairs@[i as int].deep_view());
            lemma_first_some_step(all, f, i as int);
        }
        if same(pairs[i].0.as_str(), name) {
            return Some(pairs[i].1.copy());
        }
        i = i + 1;
    }
    None
}

/// The claim on the installed Node version that a project pins.
pub open spec fn toolchain_claims(p: ProjectView, home: Seq<Seq<char>>, disk: DiskView) -> Seq<
    ClaimView,
> {
    let all = installed(disk, home);
    match first_some(pin_files(), pin_at(disk, p.root)) {
        Some(pin) => match highest(pin, pair_names(all), dir_versions(pair_names(all))) {
            Some(best) => match first_some(all, place_of(best)) {
                Some(path) => seq![
                    own(
                        path,
                        path_text(p.root),
                        EntryKind::Toolchain,
                        EvidenceTier::Exact,
                        "node version pin"@,
                        "node "@ + best,
                    ),
                ],
                None => seq![],
            },
            None => seq![],
        },
        None => seq![],
    }
}

fn node_toolchain_claims(project: &Project, env: &ResolveEnv, disk: &mut Disk) -> (r: Vec<Claim>)
    requires
        old(disk).wf(),
    ensures
        final(disk).asked(*old(disk)),
        final(disk).holds() ==> r.deep_view() == toolchain_claims(project@, env@.home, old(disk)@),
{
    let mut out: Vec<Claim> = Vec::new();
    if let Some(pin) = node_version_pin(project, env, disk) {
        let pairs = list_installed(&env.home, disk);
        let names = names_of(&pairs);
        if let Some(best) = newest_matching_version_dir(pin.as_str(), &names) {
            if let Some(path) = find_place(&pairs, best.as_str()) {
                let owner = project.root.text();
                put(
                    &mut out,
                    own_claim(
                        path,
                        owner.as_str(),
                        EntryKind::Toolchain,
                        EvidenceTier::Exact,
                        "node version pin",
                        cat2("node ", best.as_str()).as_str(),
                    ),
                );
            }
        }
    }
    assert(disk.holds() ==> out.deep_view() =~= toolchain_claims(project@, env@.home, old(disk)@));
    out
}

/// The claims of a project on the package caches and the Node version that it uses.
pub open spec fn node_claims(p: ProjectView, env: EnvView, disk: DiskView) -> Seq<ClaimView> {
    if !disk.present(child(p.root, "package.json"@)) {
        seq![]
    } else {
        all_tagged(
            pnpm_claims_of(p, env.home, disk) + npm_claims_of(p, env.home, disk) + yarn_claims_of(
                p,
                env.home,
                disk,
            ) + bun_claims_of(p, env.home, disk) + toolchain_claims(p, env.home, disk),
            "node"@,
        )
    }
}

/// The claims of a project that has a `package.json` on the package caches and the Node version that
/// it uses.
pub fn resolve(project: &Project, env: &ResolveEnv, disk: &mut Disk) -> (r: Vec<Claim>)
    requires
        old(disk).wf(),
    ensures
        final(disk).asked(*old(disk)),
        final(disk).holds() ==> r.deep_view() == node_claims(project@, env@, old(disk)@),
{
    if !disk.present(&project.root.child("package.json")) {
        let none: Vec<Claim> = Vec::new();
        assert(none.deep_view() =~= seq![]);
        return none;
    }
    let mut out = pnpm_claims(project, env, disk);
    put_all(&mut out, npm_claims(project, env, disk));
    put_all(&mut out, yarn_berry_claims(project, env, disk));
    put_all(&mut out, bun_claims(project, env, disk));
    put_all(&mut out, node_toolchain_claims(project, env, disk));
    tag_all(out, "node")
}

/// Where pnpm keeps what belongs to no project.
pub open spec fn pnpm_places() -> Seq<Place> {
    seq![
        Place {
            rel: "Library/Caches/pnpm/dlx",
            kind: EntryKind::PackageCache,
            label: "Library/Caches/pnpm/dlx",
        },
        Place {
            rel: "Library/pnpm/global",
            kind: EntryKind::PackageCache,
            label: "Library/pnpm/global",
        },
    ]
}

/// Where npm and bun keep what belongs to no project.
pub open spec fn npm_places() -> Seq<Place> {
    seq![
        Place {
            rel: ".npm/_cacache/index-v5",
            kind: EntryKind::PackageCache,
            label: "npm cache index",
        },
        Place { rel: ".npm/_logs", kind: EntryKind::Logs, label: "npm logs" },
        Place { rel: ".bun/install/cache", kind: EntryKind::PackageCache, label: "bun cache" },
    ]
}

/// The claim on what pnpm keeps of a registry.
pub open spec fn metadata_claim(dir: Seq<Seq<char>>) -> spec_fn(Seq<char>) -> Option<ClaimView> {
    |name: Seq<char>|
        if starts(name, "metadata"@) || starts(name, "v"@) {
            Some(
                shared(
                    child(dir, name),
                    EntryKind::PackageCache,
                    "pnpm ecosystem resource"@,
                    name,
                    "node"@,
                ),
            )
        } else {
            None
        }
}

fn put_metadata_claims(dir: &FilePath, disk: &mut Disk, out: &mut Vec<Claim>)
    requires
        old(disk).wf(),
    ensures
        final(disk).asked(*old(disk)),
        final(disk).holds()
            ==> final(out).deep_view() == old(out).deep_view() + names_in(old(disk)@, dir@).filter_map(
            metadata_claim(dir@),
        ),
{
    let ghost was = out.deep_view();
    let names = list_names(disk, dir);
    let ghost all = names.deep_view();
    let ghost pick = metadata_claim(dir@);
    let mut i: usize = 0;
    proof {
        lemma_filter_map_start(all, pick);
        assert(out.deep_view() =~= was + all.take(0).filter_map(pick));
    }
    while i < names.len()
        invariant
            i <= names.len(),
            all == names.deep_view(),
            pick == metadata_claim(dir@),
            disk.holds() ==> out.deep_view() == was + all.take(i as int).filter_map(pick),
        decreases names.len() - i,
    {
        proof {
            assert(all[i as int] == names@[i as int]@);
            all.lemma_filter_map_take_succ(pick, i as int);
        }
        let name = names[i].as_str();
        if str_starts(name, "metadata") || str_starts(name, "v") {
            put(
                out,
                shared_claim(
                    dir.child(name),
                    EntryKind::PackageCache,
                    "pnpm ecosystem resource",
                    name,
                    "node",
                ),
            );
        }
        assert(disk.holds() ==> out.deep_view() =~= was + all.take(i + 1).filter_map(pick));
        i = i + 1;
    }
    assert(all.take(i as int) =~= all);
}

/// The path of a finding that is Homebrew's Node.
pub open spec fn brewed_node() -> spec_fn(FindingView) -> Option<Option<Seq<Seq<char>>>> {
    |f: FindingView|
        if f.title == "node"@ || text_field(f.meta, "name"@) == Some("node"@) {
            Some(f.path)
        } else {
            None
        }
}

/// Where Homebrew's Node lies.
pub open spec fn node_cellar(findings: Seq<FindingView>) -> Option<Seq<Seq<char>>> {
    match first_some(findings, brewed_node()) {
        Some(path) => path,
        None => None,
    }
}

fn is_brewed_node(f: &Finding) -> (r: bool)
    ensures
        r == (brewed_node()(f@) is Some),
{
    if same(f.title.as_str(), "node") {
        return true;
    }
    match f.meta.text("name") {
        Some(n) => same(n, "node"),
        None => false,
    }
}

/// Where Homebrew's Node lies: the path of the first finding that is called `node`.
pub fn homebrew_node_cellar(env: &ResolveEnv) -> (r: Option<FilePath>)
    ensures
        r.deep_view() == node_cellar(env@.findings(ScannerId::Brew)),
{
    let findings = env.findings(ScannerId::Brew);
    let ghost all = findings.deep_view();
    let ghost f = brewed_node();
    let mut i: usize = 0;
    assert(all.skip(0) =~= all);
    while i < findings.len()
        invariant
            i <= findings.len(),
            all == findings.deep_view(),
            all == env@.findings(ScannerId::Brew),
            f == brewed_node(),
            first_some(all.skip(i as int), f) == first_some(all, f),
        decreases findings.len() - i,
    {
        proof {
            assert(all[i as int] == findings@[i as int]@);
            lemma_first_some_step(all, f, i as int);
        }
        if is_brewed_node(&findings[i]) {
            return match &findings[i].path {
                Some(p) => Some(p.copy()),
                None => None,
            };
        }
        i = i + 1;
    }
    None
}

/// The claim on Homebrew's Node.
pub open spec fn brewed_claims(env: EnvView) -> Seq<ClaimView> {
    match node_cellar(env.findings(ScannerId::Brew)) {
        Some(path) => seq![
            shared(
                path,
                EntryKind::Toolchain,
                "Homebrew default node"@,
                "node (Homebrew default)"@,
                "node"@,
            ),
        ],
        None => seq![],
    }
}

/// The claims on what the package managers of Node keep for all projects.
pub open spec fn node_common(env: EnvView, disk: DiskView) -> Seq<ClaimView> {
    let dir = child(env.home, "Library/Caches/pnpm"@);
    pnpm_places().filter_map(
        place_claim(disk, env.home, "pnpm ecosystem resource"@, "node"@),
    ) + names_in(disk, dir).filter_map(metadata_claim(dir)) + npm_places().filter_map(
        place_claim(disk, env.home, "node ecosystem resource"@, "node"@),
    ) + brewed_claims(env)
}

/// The claims on what the package managers of Node keep for all projects, and on Homebrew's Node.
pub fn baseline(env: &ResolveEnv, disk: &mut Disk) -> (r: Vec<Claim>)
    requires
        old(disk).wf(),
    ensures
        final(disk).asked(*old(disk)),
        final(disk).holds() ==> r.deep_view() == node_common(env@, old(disk)@),
{
    let pnpm = vec![
        Place {
            rel: "Library/Caches/pnpm/dlx",
            kind: EntryKind::PackageCache,
            label: "Library/Caches/pnpm/dlx",
        },
        Place {
            rel: "Library/pnpm/global",
            kind: EntryKind::PackageCache,
            label: "Library/pnpm/global",
        },
    ];
    assert(pnpm@ =~= pnpm_places());
    let npm = vec![
        Place {
            rel: ".npm/_cacache/index-v5",
            kind: EntryKind::PackageCache,
            label: "npm cache index",
        },
        Place { rel: ".npm/_logs", kind: EntryKind::Logs, label: "npm logs" },
        Place { rel: ".bun/install/cache", kind: EntryKind::PackageCache, label: "bun cache" },
    ];
    assert(npm@ =~= npm_places());
    let mut out = place_claims(&pnpm, &env.home, "pnpm ecosystem resource", "node", disk);
    put_metadata_claims(&env.home.child("Library/Caches/pnpm"), disk, &mut out);
    put_all(&mut out, place_claims(&npm, &env.home, "node ecosystem resource", "node", disk));
    let ghost was = out.deep_view();
    if let Some(path) = homebrew_node_cellar(env) {
        put(
            &mut out,
            shared_claim(
                path,
                EntryKind::Toolchain,
                "Homebrew default node",
                "node (Homebrew default)",
                "node",
            ),
        );
    }
    assert(out.deep_view() =~= was + brewed_claims(env@));
    out
}

} // verus!
