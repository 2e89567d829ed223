//! Rust: the crates that the `Cargo.lock` files of a project name, the toolchain that it pins, and
//! what rustup and Cargo keep for all projects.

use vstd::prelude::*;

use crate::attribution::model::{
    put, put_all, Claim, ClaimView, EntryKind, EnvView, EvidenceTier, ResolveEnv,
};
use crate::attribution::paths::{node_at, node_in};
use crate::attribution::projects::{put_path, Project, ProjectView};
use crate::disk::{Disk, DiskView, Listed, NodeKind};
use crate::fspath::{child, path_text, FilePath};
use crate::scan::{DirNode, DirView};
use crate::seqs::{first_some, flat, lemma_first_some_step, lemma_flat_start, lemma_flat_step};
use crate::text::{
    cat2, cat3, chars_of, lines, lines_of, listed, same, starts, str_starts, string_of,
    strip_prefix, trim, trim_start, trimmed, trimmed_start, without_prefix,
};

use super::apply::{rel_dir, relative_dir_label};
use super::common::{
    all_tagged, greatest_with, last_with_prefix, list_names, names_in, own, own_claim, place_claim,
    place_claims, prefixed_claims, put_prefixed_claims, real_dir_names, real_dirs, shared, shared_claim, tag_all, Place,
};
use super::parsers::{
    bare_line, before_char, first_bare_line, lock_start, put_package, repo_basename, up_to_char,
    LockPackage, LockPackageView, LockState,
};

verus! {

broadcast use crate::disk::group_asks;

/// How much of a `Cargo.lock` is read.
pub const MAX_LOCKFILE_BYTES: usize = 4194304;

/// How deep below the root a `Cargo.lock` is looked for.
pub const MAX_LOCKFILE_DEPTH: usize = 5;

/// How much of rustup's settings is read.
pub const MAX_SETTINGS_BYTES: usize = 8192;

/// How much of a pinned toolchain's file is read.
pub const MAX_TOOLCHAIN_BYTES: usize = 4096;

/// The value in a line `key = "value"`.
pub open spec fn toml_text(line: Seq<char>, key: Seq<char>) -> Option<Seq<char>> {
    match without_prefix(line, key) {
        Some(rest) => match without_prefix(trim_start(rest), "="@) {
            Some(rest) => match without_prefix(trim(rest), "\""@) {
                Some(value) => before_char(value, '"'),
                None => None,
            },
            None => None,
        },
        None => None,
    }
}

/// The value in a line `key = "value"`.
pub fn parse_toml_string_field(line: &str, key: &str) -> (r: Option<String>)
    ensures
        r.deep_view() == toml_text(line@, key@),
{
    let c = chars_of(line);
    let rest = match strip_prefix(c.as_slice(), key) {
        Some(s) => s,
        None => {
            return None;
        },
    };
    let rest = match strip_prefix(trimmed_start(rest), "=") {
        Some(s) => s,
        None => {
            return None;
        },
    };
    match strip_prefix(trimmed(rest), "\"") {
        Some(value) => up_to_char(value, '"'),
        None => None,
    }
}

/// The value of a key in a line, the space around it aside.
pub open spec fn toml_line(key: Seq<char>) -> spec_fn(Seq<char>) -> Option<Seq<char>> {
    |line: Seq<char>| toml_text(trim(line), key)
}

fn first_toml_text(text: &str, key: &str) -> (r: Option<String>)
    ensures
        r.deep_view() == first_some(lines(text@), toml_line(key@)),
{
    let l = lines_of(text);
    let ghost all = lines(text@);
    let ghost f = toml_line(key@);
    let mut i: usize = 0;
    assert(all.skip(0) =~= all);
    while i < l.len()
        invariant
            i <= l.len(),
            all == l.deep_view(),
            all == lines(text@),
            f == toml_line(key@),
            first_some(all.skip(i as int), f) == first_some(all, f),
        decreases l.len() - i,
    {
        proof {
            assert(all[i as int] == l@[i as int]@);
            lemma_first_some_step(all, f, i as int);
        }
        let c = chars_of(l[i].as_str());
        let found = parse_toml_string_field(string_of(trimmed(c.as_slice())).as_str(), key);
        if found.is_some() {
            return found;
        }
        i = i + 1;
    }
    None
}

/// What is known of a package behind a further line of its block.
pub open spec fn block_line(s: LockState, t: Seq<char>) -> LockState {
    if toml_text(t, "name"@) is Some {
        LockState { name: toml_text(t, "name"@), ..s }
    } else if toml_text(t, "version"@) is Some {
        LockState { version: toml_text(t, "version"@), ..s }
    } else if toml_text(t, "source"@) is Some {
        LockState { source: toml_text(t, "source"@), ..s }
    } else {
        s
    }
}

/// The packages in the lines of a `Cargo.lock`, from a state on.
pub open spec fn block_packages(l: Seq<Seq<char>>, s: LockState) -> Seq<LockPackageView>
    decreases l.len(),
{
    if l.len() == 0 {
        s.package()
    } else {
        let t = trim(l[0]);
        if t == "[[package]]"@ {
            s.package() + block_packages(l.skip(1), lock_start(true))
        } else if !s.open {
            block_packages(l.skip(1), s)
        } else {
            block_packages(l.skip(1), block_line(s, t))
        }
    }
}

/// The packages of a `Cargo.lock`: the blocks that give a name and a version.
pub fn parse_cargo_lock(text: &str) -> (r: Vec<LockPackage>)
    ensures
        r.deep_view() == block_packages(lines(text@), lock_start(false)),
{
    let l = lines_of(text);
    let ghost all = lines(text@);
    let ghost want = block_packages(all, lock_start(false));
    let mut out: Vec<LockPackage> = Vec::new();
    let mut name: Option<String> = None;
    let mut version: Option<String> = None;
    let mut source: Option<String> = None;
    let mut open = false;
    let mut i: usize = 0;
    proof {
        assert(all.skip(0) =~= all);
        assert(out.deep_view() + want =~= want);
    }
    while i < l.len()
        invariant
            i <= l.len(),
            all == l.deep_view(),
            out.deep_view() + block_packages(
                all.skip(i as int),
                (LockState {
                    name: name.deep_view(),
                    version: version.deep_view(),
                    source: source.deep_view(),
                    open,
                }),
            ) == want,
        decreases l.len() - i,
    {
        let ghost was = out.deep_view();
        let ghost now = all.skip(i as int);
        let ghost s = LockState {
            name: name.deep_view(),
            version: version.deep_view(),
            source: source.deep_view(),
            open,
        };
        proof {
            assert(now[0] == l@[i as int]@);
            assert(now.skip(1) =~= all.skip(i + 1));
        }
        let c = chars_of(l[i].as_str());
        let t = string_of(trimmed(c.as_slice()));
        if same(t.as_str(), "[[package]]") {
            put_package(&mut out, name, version, source);
            name = None;
            version = None;
            source = None;
            open = true;
            proof {
                let rest = block_packages(all.skip(i + 1), lock_start(true));
                assert(out.deep_view() + rest =~= was + (s.package() + rest));
            }
        } else if open {
            let n = parse_toml_string_field(t.as_str(), "name");
            if n.is_some() {
                name = n;
            } else {
                let v = parse_toml_string_field(t.as_str(), "version");
                if v.is_some() {
                    version = v;
                } else {
                    let o = parse_toml_string_field(t.as_str(), "source");
                    if o.is_some() {
                        source = o;
                    }
                }
            }
        }
        i = i + 1;
    }
    put_package(&mut out, name, version, source);
    out
}

/// The name of the repository in `git+url?query#revision`.
pub open spec fn git_source(source: Seq<char>) -> Option<Seq<char>> {
    match without_prefix(source, "git+"@) {
        Some(url) => repo_basename(url),
        None => None,
    }
}

/// The name of the repository in `git+url?query#revision`, without `.git` at its end.
pub fn git_repo_basename(source: &str) -> (r: Option<String>)
    ensures
        r.deep_view() == git_source(source@),
{
    let c = chars_of(source);
    match strip_prefix(c.as_slice(), "git+") {
        Some(url) => super::parsers::git_repo_basename(string_of(url).as_str()),
        None => None,
    }
}

/// Whether a directory of this name is looked into for a `Cargo.lock`.
pub open spec fn may_hold_lock(name: Seq<char>) -> bool {
    &&& !starts(name, "."@)
    &&& name != "target"@
    &&& name != "node_modules"@
    &&& name != ".build"@
    &&& name != "Pods"@
}

fn is_searched(name: &str) -> (r: bool)
    ensures
        r == may_hold_lock(name@),
{
    !str_starts(name, ".") && !same(name, "target") && !same(name, "node_modules") && !same(
        name,
        ".build",
    ) && !same(name, "Pods")
}

/// Whether one of the entries is a `Cargo.lock`.
pub open spec fn holds_lock(entries: Seq<(Seq<char>, NodeKind)>) -> bool {
    exists|i: int|
        0 <= i < entries.len() && (#[trigger] entries[i]).0 == "Cargo.lock"@ && entries[i].1
            != NodeKind::Dir
}

/// The `Cargo.lock` directly in a directory.
pub open spec fn lock_in(disk: DiskView, dir: Seq<Seq<char>>) -> Seq<Seq<Seq<char>>> {
    match disk.list(dir) {
        Some(entries) => if holds_lock(entries) {
            seq![child(dir, "Cargo.lock"@)]
        } else {
            seq![]
        },
        None => seq![],
    }
}

/// The `Cargo.lock` files in a directory and `deeper` levels below it, the last of its directories
/// first.
pub open spec fn tree_locks(disk: DiskView, at: Seq<Seq<char>>, node: DirView, deeper: nat) -> Seq<
    Seq<Seq<char>>,
>
    decreases deeper, 1int, 0nat,
{
    lock_in(disk, at) + dirs_locks(disk, at, node.children, deeper)
}

/// The `Cargo.lock` files in these directories and below them, the last directory first.
pub open spec fn dirs_locks(disk: DiskView, at: Seq<Seq<char>>, dirs: Seq<DirView>, deeper: nat) -> Seq<
    Seq<Seq<char>>,
>
    decreases deeper, 0int, dirs.len(),
{
    if deeper == 0 || dirs.len() == 0 {
        seq![]
    } else {
        let d = dirs.last();
        (if may_hold_lock(d.name) {
            tree_locks(disk, child(at, d.name), d, (deeper - 1) as nat)
        } else {
            seq![]
        }) + dirs_locks(disk, at, dirs.drop_last(), deeper)
    }
}

fn has_lock(entries: &Vec<Listed>) -> (r: bool)
    ensures
        r == holds_lock(entries.deep_view()),
{
    let ghost all = entries.deep_view();
    let mut i: usize = 0;
    while i < entries.len()
        invariant
            i <= entries.len(),
            all == entries.deep_view(),
            forall|j: int|
                0 <= j < i ==> !((#[trigger] all[j]).0 == "Cargo.lock"@ && all[j].1
                    != NodeKind::Dir),
        decreases entries.len() - i,
    {
        assert(all[i as int] == entries@[i as int].deep_view());
        if entries[i].kind != NodeKind::Dir && same(entries[i].name.as_str(), "Cargo.lock") {
            return true;
        }
        i = i + 1;
    }
    false
}

fn put_locks(disk: &mut Disk, at: &FilePath, node: &DirNode, deeper: usize, out: &mut Vec<FilePath>)
    requires
        old(disk).wf(),
    ensures
        final(disk).asked(*old(disk)),
        final(disk).holds() ==> final(out).deep_view() == old(out).deep_view() + tree_locks(
            old(disk)@,
            at@,
            node@,
            deeper as nat,
        ),
    decreases deeper,
{
    let ghost facts = disk@;
    let ghost was = out.deep_view();
    if let Some(entries) = disk.list(at) {
        if has_lock(&entries) {
            put_path(out, at.child("Cargo.lock"));
        }
    }
    let ghost own = out.deep_view();
    assert(disk.holds() ==> own =~= was + lock_in(facts, at@));
    let ghost all = node@.children;
    let ghost want = dirs_locks(facts, at@, all, deeper as nat);
    if deeper > 0 {
        let mut i: usize = node.children.len();
        proof {
            assert(all.len() == i);
            assert(all.take(i as int) =~= all);
            assert(out.deep_view() + want =~= own + want);
        }
        let ghost start = *disk;
        while i > 0
            invariant
                i <= node.children.len(),
                all.len() == node.children.len(),
                deeper > 0,
                all == node@.children,
                facts == old(disk)@,
                disk.asked(*old(disk)),
                disk.holds() ==> start.holds(),
                disk.holds()
                    ==> out.deep_view() + dirs_locks(facts, at@, all.take(i as int), deeper as nat) == own
                    + want,
            decreases i,
        {
            let ghost so_far = all.take(i as int);
            i = i - 1;
            let d = &node.children[i];
            let ghost before = out.deep_view();
            proof {
                assert(all[i as int] == d@);
                assert(so_far.drop_last() =~= all.take(i as int));
                assert(so_far.last() == d@);
            }
            let name = d.name.as_str();
            if is_searched(name) {
                let sub = at.child(name);
                put_locks(disk, &sub, d, deeper - 1, out);
            }
            proof {
                let rest = dirs_locks(facts, at@, all.take(i as int), deeper as nat);
                assert(disk.holds() ==> out.deep_view() + rest =~= before + dirs_locks(
                    facts,
                    at@,
                    so_far,
                    deeper as nat,
                ));
            }
        }
        assert(out.deep_view() =~= out.deep_view() + dirs_locks(
            facts,
            at@,
            all.take(0),
            deeper as nat,
        ));
    } else {
        assert(out.deep_view() =~= own + want);
    }
    assert(disk.holds() ==> out.deep_view() =~= was + tree_locks(facts, at@, node@, deeper as nat));
}

/// The `Cargo.lock` files of a project.
pub open spec fn project_locks(root: Seq<Seq<char>>, env: EnvView, disk: DiskView) -> Seq<
    Seq<Seq<char>>,
> {
    match node_in(env.trees, root) {
        Some(node) => tree_locks(disk, root, node, MAX_LOCKFILE_DEPTH as nat),
        None => seq![],
    }
}

/// The `Cargo.lock` files of a project. Hidden directories and those with build output or copies of
/// dependencies are left out.
pub fn find_cargo_locks(project: &Project, env: &ResolveEnv, disk: &mut Disk) -> (r: Vec<FilePath>)
    requires
        old(disk).wf(),
    ensures
        final(disk).asked(*old(disk)),
        final(disk).holds() ==> r.deep_view() == project_locks(project@.root, env@, old(disk)@),
{
    let mut out: Vec<FilePath> = Vec::new();
    assert(out.deep_view() =~= seq![]);
    match node_at(&env.trees, &project.root) {
        Some(node) => {
            put_locks(disk, &project.root, node, MAX_LOCKFILE_DEPTH, &mut out);
            assert(disk.holds()
                ==> out.deep_view() =~= project_locks(project@.root, env@, old(disk)@));
        },
        None => {},
    }
    out
}

/// The claim on a file or directory, where it is there.
pub open spec fn claim_if_present(
    disk: DiskView,
    path: Seq<Seq<char>>,
    owner: Seq<char>,
    evidence: Seq<char>,
    label: Seq<char>,
) -> Seq<ClaimView> {
    if disk.present(path) {
        seq![
            own(path, owner, EntryKind::PackageCache, EvidenceTier::Exact, evidence, label),
        ]
    } else {
        seq![]
    }
}

/// The claims on what one index of a registry keeps of a crate: the archive and the sources.
pub open spec fn index_claims(
    disk: DiskView,
    home: Seq<Seq<char>>,
    owner: Seq<char>,
    p: LockPackageView,
    evidence: Seq<char>,
) -> spec_fn(Seq<char>) -> Seq<ClaimView> {
    let name = p.name + "-"@ + p.version;
    let label = p.name + " "@ + p.version;
    |idx: Seq<char>|
        claim_if_present(
            disk,
            child(child(child(home, ".cargo/registry/cache"@), idx), name + ".crate"@),
            owner,
            evidence,
            label,
        ) + claim_if_present(
            disk,
            child(child(child(home, ".cargo/registry/src"@), idx), name),
            owner,
            evidence,
            label,
        )
}

fn put_if_present(
    path: FilePath,
    owner: &str,
    evidence: &str,
    label: &str,
    disk: &mut Disk,
    out: &mut Vec<Claim>,
)
    requires
        old(disk).wf(),
    ensures
        final(disk).asked(*old(disk)),
        final(disk).holds() ==> final(out).deep_view() == old(out).deep_view() + claim_if_present(
            old(disk)@,
            path@,
            owner@,
            evidence@,
            label@,
        ),
{
    let ghost was = out.deep_view();
    let ghost want = claim_if_present(disk@, path@, owner@, evidence@, label@);
    if disk.present(&path) {
        put(
            out,
            own_claim(path, owner, EntryKind::PackageCache, EvidenceTier::Exact, evidence, label),
        );
    }
    assert(disk.holds() ==> out.deep_view() =~= was + want);
}

fn put_registry_claims(
    home: &FilePath,
    index_dirs: &Vec<String>,
    owner: &str,
    p: &LockPackage,
    evidence: &str,
    disk: &mut Disk,
    out: &mut Vec<Claim>,
)
    requires
        old(disk).wf(),
    ensures
        final(disk).asked(*old(disk)),
        final(disk).holds() ==> final(out).deep_view() == old(out).deep_view() + flat(
            index_dirs.deep_view(),
            index_claims(old(disk)@, home@, owner@, p.deep_view(), evidence@),
        ),
{
    let ghost facts = disk@;
    let ghost was = out.deep_view();
    let ghost all = index_dirs.deep_view();
    let ghost f = index_claims(facts, home@, owner@, p.deep_view(), evidence@);
    let name = cat3(p.name.as_str(), "-", p.version.as_str());
    let label = cat3(p.name.as_str(), " ", p.version.as_str());
    let archive = cat2(name.as_str(), ".crate");
    let mut i: usize = 0;
    proof {
        lemma_flat_start(all, f);
        assert(out.deep_view() =~= was + flat(all.take(0), f));
    }
    while i < index_dirs.len()
        invariant
            i <= index_dirs.len(),
            all == index_dirs.deep_view(),
            facts == old(disk)@,
            disk.asked(*old(disk)),
            name@ == p.deep_view().name + "-"@ + p.deep_view().version,
            label@ == p.deep_view().name + " "@ + p.deep_view().version,
            archive@ == name@ + ".crate"@,
            f == index_claims(facts, home@, owner@, p.deep_view(), evidence@),
            disk.holds() ==> out.deep_view() == was + flat(all.take(i as int), f),
        decreases index_dirs.len() - i,
    {
        proof {
            assert(all[i as int] == index_dirs@[i as int]@);
            lemma_flat_step(all, f, i as int);
        }
        let ghost before = out.deep_view();
        let idx = index_dirs[i].as_str();
        let packed = home.child(".cargo/registry/cache").child(idx).child(archive.as_str());
        put_if_present(packed, owner, evidence, label.as_str(), disk, out);
        let sources = home.child(".cargo/registry/src").child(idx).child(name.as_str());
        put_if_present(sources, owner, evidence, label.as_str(), disk, out);
        assert(disk.holds() ==> out.deep_view() =~= before + f(all[i as int]));
        assert(disk.holds() ==> out.deep_view() =~= was + flat(all.take(i + 1), f));
        i = i + 1;
    }
    assert(all.take(i as int) =~= all);
}

/// The claims on what Cargo keeps of a repository.
pub open spec fn git_claims(
    disk: DiskView,
    home: Seq<Seq<char>>,
    owner: Seq<char>,
    basename: Seq<char>,
    p: LockPackageView,
    evidence: Seq<char>,
) -> Seq<ClaimView> {
    let label = p.name + " "@ + p.version;
    let cargo = child(home, ".cargo"@);
    prefixed_claims(
        disk,
        child(cargo, "git/checkouts"@),
        owner,
        EvidenceTier::NameMatch,
        basename + "-"@,
        evidence,
        label,
    ) + prefixed_claims(
        disk,
        child(cargo, "git/db"@),
        owner,
        EvidenceTier::NameMatch,
        basename + "-"@,
        evidence,
        label,
    )
}

/// The claims for one package of a `Cargo.lock`.
pub open spec fn package_claims(
    disk: DiskView,
    home: Seq<Seq<char>>,
    owner: Seq<char>,
    evidence: Seq<char>,
) -> spec_fn(LockPackageView) -> Seq<ClaimView> {
    |p: LockPackageView|
        match p.source {
            Some(source) => if starts(source, "git+"@) {
                match git_source(source) {
                    Some(basename) => git_claims(disk, home, owner, basename, p, evidence),
                    None => seq![],
                }
            } else if source.len() > 0 {
                flat(
                    real_dirs(disk, child(home, ".cargo/registry/cache"@)),
                    index_claims(disk, home, owner, p, evidence),
                )
            } else {
                seq![]
            },
            None => seq![],
        }
}

fn put_package_claims(
    home: &FilePath,
    index_dirs: &Vec<String>,
    owner: &str,
    p: &LockPackage,
    evidence: &str,
    disk: &mut Disk,
    out: &mut Vec<Claim>,
)
    requires
        old(disk).wf(),
        old(disk).holds()
            ==> index_dirs.deep_view() == real_dirs(old(disk)@, child(home@, ".cargo/registry/cache"@)),
    ensures
        final(disk).asked(*old(disk)),
        final(disk).holds() ==> final(out).deep_view() == old(out).deep_view() + package_claims(
            old(disk)@,
            home@,
            owner@,
            evidence@,
        )(p.deep_view()),
{
    let ghost was = out.deep_view();
    assert(was =~= was + Seq::<ClaimView>::empty());
    if let Some(source) = &p.source {
        if str_starts(source.as_str(), "git+") {
            if let Some(basename) = git_repo_basename(source.as_str()) {
                let prefix = cat2(basename.as_str(), "-");
                let label = cat3(p.name.as_str(), " ", p.version.as_str());
                let cargo = home.child(".cargo");
                let checkouts = cargo.child("git/checkouts");
                let db = cargo.child("git/db");
                put_prefixed_claims(
                    &checkouts,
                    owner,
                    EvidenceTier::NameMatch,
                    prefix.as_str(),
                    evidence,
                    label.as_str(),
                    disk,
                    out,
                );
                put_prefixed_claims(
                    &db,
                    owner,
                    EvidenceTier::NameMatch,
                    prefix.as_str(),
                    evidence,
                    label.as_str(),
                    disk,
                    out,
                );
                assert(disk.holds() ==> out.deep_view() =~= was + git_claims(
                    old(disk)@,
                    home@,
                    owner@,
                    basename@,
                    p.deep_view(),
                    evidence@,
                ));
            }
        } else if chars_of(source.as_str()).len() > 0 {
            put_registry_claims(home, index_dirs, owner, p, evidence, disk, out);
        }
    }
}

/// What a `Cargo.lock` is called as evidence.
pub open spec fn lock_evidence(root: Seq<Seq<char>>, file: Seq<Seq<char>>) -> Seq<char> {
    if rel_dir(root, file).len() == 0 {
        "Cargo.lock"@
    } else {
        "Cargo.lock in "@ + rel_dir(root, file) + "/"@
    }
}

/// The claims for the packages of the `Cargo.lock` at a path.
pub open spec fn lock_claims(p: ProjectView, home: Seq<Seq<char>>, disk: DiskView) -> spec_fn(
    Seq<Seq<char>>,
) -> Seq<ClaimView> {
    |file: Seq<Seq<char>>|
        match disk.head(file, MAX_LOCKFILE_BYTES) {
            Some(text) => flat(
                block_packages(lines(text), lock_start(false)),
                package_claims(disk, home, path_text(p.root), lock_evidence(p.root, file)),
            ),
            None => seq![],
        }
}

fn put_lock_claims(
    project: &Project,
    file: &FilePath,
    index_dirs: &Vec<String>,
    env: &ResolveEnv,
    disk: &mut Disk,
    out: &mut Vec<Claim>,
)
    requires
        old(disk).wf(),
        old(disk).holds() ==> index_dirs.deep_view() == real_dirs(
            old(disk)@,
            child(env@.home, ".cargo/registry/cache"@),
        ),
    ensures
        final(disk).asked(*old(disk)),
        final(disk).holds() ==> final(out).deep_view() == old(out).deep_view() + lock_claims(
            project@,
            env@.home,
            old(disk)@,
        )(file@),
{
    let ghost facts = disk@;
    let ghost was = out.deep_view();
    assert(was =~= was + Seq::<ClaimView>::empty());
    if let Some(text) = env.read_head(disk, file, MAX_LOCKFILE_BYTES) {
        let packages = parse_cargo_lock(text.as_str());
        let owner = project.root.text();
        let rel = relative_dir_label(&project.root, file);
        let evidence = if chars_of(rel.as_str()).len() == 0 {
            "Cargo.lock".to_owned()
        } else {
            cat3("Cargo.lock in ", rel.as_str(), "/")
        };
        let ghost all = packages.deep_view();
        let ghost f = package_claims(facts, env@.home, owner@, evidence@);
        let mut i: usize = 0;
        proof {
            lemma_flat_start(all, f);
            assert(out.deep_view() =~= was + flat(all.take(0), f));
        }
        let ghost start = *disk;
        while i < packages.len()
            invariant
                i <= packages.len(),
                all == packages.deep_view(),
                facts == old(disk)@,
                disk.asked(*old(disk)),
                disk.holds() ==> start.holds(),
                disk.holds() ==> index_dirs.deep_view() == real_dirs(
                    facts,
                    child(env@.home, ".cargo/registry/cache"@),
                ),
                f == package_claims(facts, env@.home, owner@, evidence@),
                disk.holds() ==> out.deep_view() == was + flat(all.take(i as int), f),
            decreases packages.len() - i,
        {
            proof {
                assert(all[i as int] == packages@[i as int].deep_view());
                lemma_flat_step(all, f, i as int);
            }
            put_package_claims(
                &env.home,
                index_dirs,
                owner.as_str(),
                &packages[i],
                evidence.as_str(),
                disk,
                out,
            );
            assert(disk.holds() ==> out.deep_view() =~= was + flat(all.take(i + 1), f));
            i = i + 1;
        }
        assert(all.take(i as int) =~= all);
    }
}

/// The toolchain that a text pins: under `channel`, or in a line of its own.
pub open spec fn channel_in(text: Seq<char>) -> Option<Seq<char>> {
    match first_some(lines(text), toml_line("channel"@)) {
        Some(c) => Some(c),
        None => first_some(lines(text), bare_line()),
    }
}

/// The toolchain that a text pins: under `channel`, or in a line of its own.
pub fn parse_toolchain_channel(text: &str) -> (r: Option<String>)
    ensures
        r.deep_view() == channel_in(text@),
{
    match first_toml_text(text, "channel") {
        Some(c) => Some(c),
        None => first_bare_line(text),
    }
}

/// The toolchain that a file pins.
pub open spec fn channel_at(disk: DiskView, file: Seq<Seq<char>>) -> Option<Seq<char>> {
    match disk.head(file, MAX_TOOLCHAIN_BYTES) {
        Some(text) => channel_in(text),
        None => None,
    }
}

/// The toolchain that a project pins.
pub open spec fn pinned_channel(disk: DiskView, root: Seq<Seq<char>>) -> Option<Seq<char>> {
    match channel_at(disk, child(root, "rust-toolchain.toml"@)) {
        Some(c) => Some(c),
        None => channel_at(disk, child(root, "rust-toolchain"@)),
    }
}

fn read_channel(file: &FilePath, env: &ResolveEnv, disk: &mut Disk) -> (r: Option<String>)
    requires
        old(disk).wf(),
    ensures
        final(disk).asked(*old(disk)),
        final(disk).holds() ==> r.deep_view() == channel_at(old(disk)@, file@),
{
    match env.read_head(disk, file, MAX_TOOLCHAIN_BYTES) {
        Some(text) => parse_toolchain_channel(text.as_str()),
        None => None,
    }
}

fn read_toolchain_channel(project: &Project, env: &ResolveEnv, disk: &mut Disk) -> (r: Option<String>)
    requires
        old(disk).wf(),
    ensures
        final(disk).asked(*old(disk)),
        final(disk).holds() ==> r.deep_view() == pinned_channel(old(disk)@, project@.root),
{
    match read_channel(&project.root.child("rust-toolchain.toml"), env, disk) {
        Some(c) => Some(c),
        None => read_channel(&project.root.child("rust-toolchain"), env, disk),
    }
}

/// The installed toolchain for a channel: the one of exactly that name, or else the last one of that
/// channel.
pub open spec fn toolchain_for(names: Seq<Seq<char>>, channel: Seq<char>) -> Option<Seq<char>> {
    if names.contains(channel) {
        Some(channel)
    } else {
        greatest_with(names, channel + "-"@)
    }
}

/// The installed toolchain for a channel: the one of exactly that name, or else, of those whose
/// names go on with a dash and a host, the last in their order.
pub fn resolve_toolchain_dir(env: &ResolveEnv, channel: &str, disk: &mut Disk) -> (r: Option<String>)
    requires
        old(disk).wf(),
    ensures
        final(disk).asked(*old(disk)),
        final(disk).holds() ==> r.deep_view() == toolchain_for(
            names_in(old(disk)@, child(env@.home, ".rustup/toolchains"@)),
            channel@,
        ),
{
    let names = list_names(disk, &env.home.child(".rustup/toolchains"));
    if listed(&names, channel) {
        return Some(channel.to_owned());
    }
    last_with_prefix(&names, cat2(channel, "-").as_str())
}

/// The claim on the toolchain that a project pins.
pub open spec fn toolchain_claims(p: ProjectView, home: Seq<Seq<char>>, disk: DiskView) -> Seq<
    ClaimView,
> {
    let dir = child(home, ".rustup/toolchains"@);
    match pinned_channel(disk, p.root) {
        Some(channel) => match toolchain_for(names_in(disk, dir), channel) {
            Some(name) => seq![
                own(
                    child(dir, name),
                    path_text(p.root),
                    EntryKind::Toolchain,
                    EvidenceTier::Exact,
                    "rust-toolchain pins "@ + channel,
                    name,
                ),
            ],
            None => seq![],
        },
        None => seq![],
    }
}

fn put_toolchain_claim(project: &Project, env: &ResolveEnv, disk: &mut Disk, out: &mut Vec<Claim>)
    requires
        old(disk).wf(),
    ensures
        final(disk).asked(*old(disk)),
        final(disk).holds() ==> final(out).deep_view() == old(out).deep_view() + toolchain_claims(
            project@,
            env@.home,
            old(disk)@,
        ),
{
    let ghost was = out.deep_view();
    if let Some(channel) = read_toolchain_channel(project, env, disk) {
        if let Some(name) = resolve_toolchain_dir(env, channel.as_str(), disk) {
            let owner = project.root.text();
            let path = env.home.child(".rustup/toolchains").child(name.as_str());
            put(
                out,
                own_claim(
                    path,
                    owner.as_str(),
                    EntryKind::Toolchain,
                    EvidenceTier::Exact,
                    cat2("rust-toolchain pins ", channel.as_str()).as_str(),
                    name.as_str(),
                ),
            );
        }
    }
    assert(disk.holds()
        ==> out.deep_view() =~= was + toolchain_claims(project@, env@.home, old(disk)@));
}

/// The claims of a project on what Cargo and rustup keep for it.
pub open spec fn rust_claims(p: ProjectView, env: EnvView, disk: DiskView) -> Seq<ClaimView> {
    all_tagged(
        flat(project_locks(p.root, env, disk), lock_claims(p, env.home, disk)) + toolchain_claims(
            p,
            env.home,
            disk,
        ),
        "rust"@,
    )
}

/// The claims of a project on the crates that its `Cargo.lock` files name, and on the toolchain that
/// it pins.
pub fn resolve(project: &Project, env: &ResolveEnv, disk: &mut Disk) -> (r: Vec<Claim>)
    requires
        old(disk).wf(),
    ensures
        final(disk).asked(*old(disk)),
        final(disk).holds() ==> r.deep_view() == rust_claims(project@, env@, old(disk)@),
{
    let ghost facts = disk@;
    let files = find_cargo_locks(project, env, disk);
    let index_dirs = real_dir_names(disk, &env.home.child(".cargo/registry/cache"));
    let ghost all = files.deep_view();
    let ghost f = lock_claims(project@, env@.home, facts);
    let mut out: Vec<Claim> = Vec::new();
    let mut i: usize = 0;
    proof {
        lemma_flat_start(all, f);
        assert(out.deep_view() =~= flat(all.take(0), f));
    }
    let ghost start = *disk;
    while i < files.len()
        invariant
            i <= files.len(),
            all == files.deep_view(),
            facts == old(disk)@,
            disk.asked(*old(disk)),
            disk.holds() ==> start.holds(),
            disk.holds() ==> index_dirs.deep_view() == real_dirs(
                facts,
                child(env@.home, ".cargo/registry/cache"@),
            ),
            f == lock_claims(project@, env@.home, facts),
            disk.holds() ==> out.deep_view() == flat(all.take(i as int), f),
        decreases files.len() - i,
    {
        proof {
            assert(all[i as int] == files@[i as int]@);
            lemma_flat_step(all, f, i as int);
        }
        put_lock_claims(project, &files[i], &index_dirs, env, disk, &mut out);
        i = i + 1;
    }
    assert(all.take(i as int) =~= all);
    put_toolchain_claim(project, env, disk, &mut out);
    tag_all(out, "rust")
}

/// The toolchain that rustup's settings make the default.
pub fn parse_default_toolchain(text: &str) -> (r: Option<String>)
    ensures
        r.deep_view() == first_some(lines(text@), toml_line("default_toolchain"@)),
{
    first_toml_text(text, "default_toolchain")
}

/// The claim on the default toolchain, where it is installed.
pub open spec fn default_claims(home: Seq<Seq<char>>, disk: DiskView) -> Seq<ClaimView> {
    match disk.head(child(home, ".rustup/settings.toml"@), MAX_SETTINGS_BYTES) {
        Some(text) => match first_some(lines(text), toml_line("default_toolchain"@)) {
            Some(name) => {
                let path = child(child(home, ".rustup/toolchains"@), name);
                if disk.present(path) {
                    seq![
                        shared(
                            path,
                            EntryKind::Toolchain,
                            "default rustup toolchain"@,
                            name,
                            "rust"@,
                        ),
                    ]
                } else {
                    seq![]
                }
            },
            None => seq![],
        },
        None => seq![],
    }
}

/// Where rustup and Cargo keep what belongs to no project.
pub open spec fn rust_places() -> Seq<Place> {
    seq![
        Place {
            rel: ".rustup/downloads",
            kind: EntryKind::Toolchain,
            label: "rustup downloads",
        },
        Place { rel: ".rustup/tmp", kind: EntryKind::Toolchain, label: "rustup tmp" },
        Place {
            rel: ".cargo/registry/index",
            kind: EntryKind::PackageCache,
            label: "cargo registry index",
        },
        Place { rel: ".cargo/bin", kind: EntryKind::PackageCache, label: "cargo bin" },
        Place { rel: ".cargo/git/db", kind: EntryKind::PackageCache, label: "cargo git db" },
    ]
}

/// The claims on the default toolchain and on what rustup and Cargo keep for all projects.
pub fn baseline(env: &ResolveEnv, disk: &mut Disk) -> (r: Vec<Claim>)
    requires
        old(disk).wf(),
    ensures
        final(disk).asked(*old(disk)),
        final(disk).holds()
            ==> r.deep_view() == default_claims(env@.home, old(disk)@) + rust_places().filter_map(
            place_claim(old(disk)@, env@.home, "rust ecosystem resource"@, "rust"@),
        ),
{
    let mut out: Vec<Claim> = Vec::new();
    let settings = env.home.child(".rustup/settings.toml");
    if let Some(text) = env.read_head(disk, &settings, MAX_SETTINGS_BYTES) {
        if let Some(name) = parse_default_toolchain(text.as_str()) {
            let path = env.home.child(".rustup/toolchains").child(name.as_str());
            if disk.present(&path) {
                put(
                    &mut out,
                    shared_claim(
                        path,
                        EntryKind::Toolchain,
                        "default rustup toolchain",
                        name.as_str(),
                        "rust",
                    ),
                );
            }
        }
    }
    assert(disk.holds() ==> out.deep_view() =~= default_claims(env@.home, old(disk)@));
    let places = vec![
        Place {
            rel: ".rustup/downloads",
            kind: EntryKind::Toolchain,
            label: "rustup downloads",
        },
        Place { rel: ".rustup/tmp", kind: EntryKind::Toolchain, label: "rustup tmp" },
        Place {
            rel: ".cargo/registry/index",
            kind: EntryKind::PackageCache,
            label: "cargo registry index",
        },
        Place { rel: ".cargo/bin", kind: EntryKind::PackageCache, label: "cargo bin" },
        Place { rel: ".cargo/git/db", kind: EntryKind::PackageCache, label: "cargo git db" },
    ];
    assert(places@ =~= rust_places());
    put_all(&mut out, place_claims(&places, &env.home, "rust ecosystem resource", "rust", disk));
    out
}

} // verus!
