//! What holds of the versions that pins choose, and of what is known by a name alone.

use vstd::prelude::*;

use crate::attribution::model::{EntryKind, EnvView, EvidenceTier};
use crate::attribution::projects::ProjectView;
use crate::disk::{DiskView, Stat};
use crate::fspath::{child, extension_of, path_text};
use crate::order::chars_lt;
use crate::seqs::{
    flat, lemma_first_given, lemma_given, lemma_in_flat, lemma_picked, lemma_picked_from,
};
use crate::text::{byte_len, just, lines, lowered, starts, trim};
use crate::text_laws::free_of;

use super::common::{greatest_with, real_dir, real_dirs};
use super::derive::telling_name;
use super::ecosystem_laws::{holds_claim, law_the_greatest_name, lemma_toml_text};
use super::links::{cwd_at, dir_cwd, session_file};
use super::node::{
    digits, goes_on_from, highest, highest_place, installed, installed_in, node_roots, with_v,
};
use super::parser_laws::quoted_line;
use super::parsers::{cwd_in, lock_start, repo_basename};
use super::python::{full_line, pinned_version, python_claims, version_claims};
use super::rust::{
    block_packages, git_claims, git_source, lock_claims, lock_evidence, package_claims,
    pinned_channel, project_locks, rust_claims, toml_line,
};
use super::templates::first_of;
use super::versions::{best_place, extends_pin, newest, SemVersionView};

verus! {

/// Whether a name is the pin, or goes on from it with a further part.
pub open spec fn further(pin: Seq<char>, name: Seq<char>, dash: bool) -> bool {
    pin.is_prefix_of(name) && (name.len() == pin.len() || name[pin.len() as int] == '.' || (dash
        && name[pin.len() as int] == '-'))
}

proof fn lemma_further(pin: Seq<char>, name: Seq<char>)
    ensures
        extends_pin(pin, name) <==> further(pin, name, true),
        goes_on_from(pin, name) <==> further(pin, name, false),
{
    if starts(name, pin) {
        assert(name.subrange(0, pin.len() as int) =~= name.take(pin.len() as int));
        if name.len() > pin.len() {
            assert(name.skip(pin.len() as int)[0] == name[pin.len() as int]);
        }
    }
    if pin.is_prefix_of(name) {
        assert(name.take(pin.len() as int) =~= pin);
    }
}

proof fn lemma_best_place(
    pin: Seq<char>,
    names: Seq<Seq<char>>,
    versions: Seq<Option<SemVersionView>>,
    n: int,
)
    requires
        0 <= n <= names.len(),
    ensures
        match best_place(pin, names, versions, n) {
            Some(i) => 0 <= i < n && extends_pin(pin, names[i]),
            None => forall|j: int| 0 <= j < n ==> !extends_pin(pin, #[trigger] names[j]),
        },
    decreases n,
{
    if n > 0 {
        lemma_best_place(pin, names, versions, n - 1);
    }
}

/// A pin chooses itself where it is there; else a name that goes on from it, if there is one.
pub proof fn law_a_pin_chooses(
    pin: Seq<char>,
    names: Seq<Seq<char>>,
    versions: Seq<Option<SemVersionView>>,
)
    ensures
        names.contains(pin) ==> newest(pin, names, versions) == Some(pin),
        match newest(pin, names, versions) {
            Some(n) => names.contains(n) && further(pin, n, true),
            None => forall|j: int| 0 <= j < names.len() ==> !further(pin, #[trigger] names[j], true),
        },
{
    lemma_best_place(pin, names, versions, names.len() as int);
    lemma_further(pin, pin);
    assert(pin.is_prefix_of(pin)) by {
        assert(pin =~= pin.subrange(0, pin.len() as int));
    }
    match best_place(pin, names, versions, names.len() as int) {
        Some(i) => {
            lemma_further(pin, names[i]);
        },
        None => {
            assert forall|j: int| 0 <= j < names.len() implies !further(
                pin,
                #[trigger] names[j],
                true,
            ) by {
                lemma_further(pin, names[j]);
                assert(!extends_pin(pin, names[j]));
            }
        },
    }
}

proof fn lemma_highest_place(
    pin: Seq<char>,
    names: Seq<Seq<char>>,
    versions: Seq<Option<SemVersionView>>,
    n: int,
)
    requires
        0 <= n <= names.len(),
    ensures
        match highest_place(pin, names, versions, n) {
            Some(i) => 0 <= i < n && versions[i] is Some && goes_on_from(
                digits(pin),
                digits(names[i]),
            ),
            None => forall|j: int|
                0 <= j < n && goes_on_from(digits(pin), digits(#[trigger] names[j]))
                    ==> versions[j] is None,
        },
    decreases n,
{
    if n > 0 {
        lemma_highest_place(pin, names, versions, n - 1);
    }
}

/// A Node pin chooses a version that goes on from it, each leading `v` aside, if there is one: `24` does
/// not choose `240`.
pub proof fn law_a_node_pin_chooses(
    pin: Seq<char>,
    names: Seq<Seq<char>>,
    versions: Seq<Option<SemVersionView>>,
)
    requires
        versions.len() == names.len(),
    ensures
        match highest(pin, names, versions) {
            Some(n) => names.contains(n) && further(digits(pin), digits(n), false),
            None => forall|j: int|
                0 <= j < names.len() && further(digits(pin), digits(#[trigger] names[j]), false)
                    ==> versions[j] is None,
        },
{
    lemma_highest_place(pin, names, versions, names.len() as int);
    match highest_place(pin, names, versions, names.len() as int) {
        Some(i) => {
            lemma_further(digits(pin), digits(names[i]));
        },
        None => {
            assert forall|j: int|
                0 <= j < names.len() && further(
                    digits(pin),
                    digits(#[trigger] names[j]),
                    false,
                ) implies versions[j] is None by {
                lemma_further(digits(pin), digits(names[j]));
            }
        },
    }
}

/// Each leading `v` of a version's name falls away, and nothing else.
pub proof fn law_versions_without_their_letter(n: nat, rest: Seq<char>)
    requires
        rest.len() > 0 ==> rest[0] != 'v',
    ensures
        digits(Seq::new(n, |i: int| 'v') + rest) == rest,
{
    let s = Seq::new(n, |i: int| 'v') + rest;
    assert forall|j: int| 0 <= j < n implies just('v')(#[trigger] s[j]) by {}
    if rest.len() > 0 {
        assert(s[n as int] == rest[0]);
    }
    crate::text::lemma_span_is(s, just('v'), n);
    assert(s.skip(n as int) =~= rest);
}

/// Every directory in one of the places where Node versions are installed is an installed version, under
/// its name with a `v` at the front.
pub proof fn law_installed_node_versions(disk: DiskView, home: Seq<Seq<char>>, r: int, e: int)
    requires
        0 <= r < 5,
        ({
            let dir = child(
                home,
                if r == 0 {
                    ".nvm/versions/node"@
                } else if r == 1 {
                    ".fnm/node-versions"@
                } else if r == 2 {
                    ".volta/tools/image/node"@
                } else if r == 3 {
                    ".local/share/mise/installs/node"@
                } else {
                    "Library/pnpm/nodejs"@
                },
            );
            &&& disk.list(dir) is Some
            &&& 0 <= e < disk.list(dir)->0.len()
            &&& disk.stat(child(dir, disk.list(dir)->0[e].0)) == Stat::Dir
        }),
    ensures
        ({
            let dir = node_roots(home)[r];
            let name = disk.list(dir)->0[e].0;
            exists|j: int|
                0 <= j < installed(disk, home).len() && #[trigger] installed(disk, home)[j] == (
                    if "v"@.is_prefix_of(name) {
                        name
                    } else {
                        "v"@ + name
                    },
                    child(dir, name),
                )
        }),
{
    let dir = node_roots(home)[r];
    let l = disk.list(dir)->0;
    let name = l[e].0;
    let k = lemma_picked(l, real_dir(disk, dir), e);
    let names = real_dirs(disk, dir);
    assert(names[k] == name);
    if "v"@.is_prefix_of(name) {
        assert(name.take("v"@.len() as int) =~= "v"@);
    } else if starts(name, "v"@) {
        assert(name.subrange(0, "v"@.len() as int) =~= name.take("v"@.len() as int));
    }
    let f = installed_in(disk);
    assert(f(dir)[k] == (with_v(name), child(dir, name)));
    let j = lemma_in_flat(node_roots(home), f, r, k);
    assert(installed(disk, home)[j] == f(dir)[k]);
}

/// A crate that a lock file takes from git is claimed wherever Cargo keeps its repository: under every
/// name that is the repository's with a dash and a mark behind it.
pub proof fn law_rust_claims_a_repository(
    p: ProjectView,
    env: EnvView,
    disk: DiskView,
    f: int,
    text: Seq<char>,
    n: int,
    url: Seq<char>,
    repo: Seq<char>,
    checkout: bool,
    e: int,
)
    requires
        0 <= f < project_locks(p.root, env, disk).len(),
        disk.head(project_locks(p.root, env, disk)[f], 4194304) == Some(text),
        0 <= n < block_packages(lines(text), lock_start(false)).len(),
        block_packages(lines(text), lock_start(false))[n].source == Some("git+"@ + url),
        repo_basename(url) == Some(repo),
        ({
            let dir = child(
                child(env.home, ".cargo"@),
                if checkout {
                    "git/checkouts"@
                } else {
                    "git/db"@
                },
            );
            &&& disk.list(dir) is Some
            &&& 0 <= e < disk.list(dir)->0.len()
            &&& (repo + "-"@).is_prefix_of(disk.list(dir)->0[e].0)
        }),
    ensures
        ({
            let dir = child(
                child(env.home, ".cargo"@),
                if checkout {
                    "git/checkouts"@
                } else {
                    "git/db"@
                },
            );
            holds_claim(
                rust_claims(p, env, disk),
                p,
                child(dir, disk.list(dir)->0[e].0),
                EntryKind::PackageCache,
                EvidenceTier::NameMatch,
                Some("rust"@),
            )
        }),
{
    let dir = child(
        child(env.home, ".cargo"@),
        if checkout {
            "git/checkouts"@
        } else {
            "git/db"@
        },
    );
    let l = disk.list(dir)->0;
    let want = repo + "-"@;
    assert(l[e].0.take(want.len() as int) =~= want);
    let files = project_locks(p.root, env, disk);
    let ks = block_packages(lines(text), lock_start(false));
    let k = ks[n];
    let source = "git+"@ + url;
    assert(source.take("git+"@.len() as int) =~= "git+"@);
    assert(source.skip("git+"@.len() as int) =~= url);
    assert(git_source(source) == Some(repo));
    let ev = lock_evidence(p.root, files[f]);
    let owner = path_text(p.root);
    let pick = super::common::prefixed_claim(
        dir,
        owner,
        EvidenceTier::NameMatch,
        want,
        ev,
        k.name + " "@ + k.version,
    );
    let i = lemma_picked(l, pick, e);
    let h = package_claims(disk, env.home, owner, ev);
    assert(h(k) == git_claims(disk, env.home, owner, repo, k, ev));
    let at = if checkout {
        i
    } else {
        h(k).len() - l.filter_map(pick).len() + i
    };
    assert(h(k)[at].path == child(dir, l[e].0));
    let a = lemma_in_flat(ks, h, n, at);
    let g = lock_claims(p, env.home, disk);
    assert(g(files[f]) == flat(ks, h));
    let b = lemma_in_flat(files, g, f, a);
    let all = rust_claims(p, env, disk);
    assert(all[b] == flat(files, g)[b].tagged("rust"@));
}

/// Whether a name comes behind another, or is it.
pub open spec fn no_less(name: Seq<char>, other: Seq<char>) -> bool {
    name == other || chars_lt(other, name)
}

/// Where uv, or pyenv, installs Python versions.
pub open spec fn pythons_in(home: Seq<Seq<char>>, uv: bool) -> Seq<Seq<char>> {
    child(
        home,
        if uv {
            ".local/share/uv/python"@
        } else {
            ".pyenv/versions"@
        },
    )
}

/// A Python version that a project pins is claimed where uv and pyenv have it installed: the greatest of
/// the directories whose names start with it.
pub proof fn law_python_claims_the_pinned_version(
    p: ProjectView,
    env: EnvView,
    disk: DiskView,
    version: Seq<char>,
    uv: bool,
    e: int,
)
    requires
        pinned_version(disk, p.root) == Some(version),
        ({
            let dir = pythons_in(env.home, uv);
            &&& disk.list(dir) is Some
            &&& 0 <= e < disk.list(dir)->0.len()
            &&& disk.stat(child(dir, disk.list(dir)->0[e].0)) == Stat::Dir
            &&& (if uv {
                "cpython-"@ + version
            } else {
                version
            }).is_prefix_of(disk.list(dir)->0[e].0)
        }),
    ensures
        ({
            let dir = pythons_in(env.home, uv);
            exists|name: Seq<char>| #[trigger]
                no_less(name, disk.list(dir)->0[e].0) && holds_claim(
                    python_claims(p, env, disk),
                    p,
                    child(dir, name),
                    EntryKind::Toolchain,
                    EvidenceTier::Exact,
                    Some("python"@),
                )
        }),
{
    let dir = pythons_in(env.home, uv);
    let l = disk.list(dir)->0;
    let k = lemma_picked(l, real_dir(disk, dir), e);
    let names = real_dirs(disk, dir);
    let prefix = if uv {
        "cpython-"@ + version
    } else {
        version
    };
    assert(names[k] == l[e].0);
    law_the_greatest_name(names, prefix);
    let name = greatest_with(names, prefix)->0;
    let pinned = version_claims(disk, env.home, path_text(p.root), version);
    let at = if uv {
        0
    } else {
        pinned.len() - 1
    };
    assert(pinned[at].path == child(dir, name));
    assert(python_claims(p, env, disk)[at] == pinned[at].tagged("python"@));
    assert(prefix.is_prefix_of(names[k]));
    assert(no_less(name, l[e].0));
    assert(holds_claim(
        python_claims(p, env, disk),
        p,
        child(dir, name),
        EntryKind::Toolchain,
        EvidenceTier::Exact,
        Some("python"@),
    ));
}

/// The first line of `.python-version` that is not blank is the pinned version.
pub proof fn law_a_python_pin(disk: DiskView, root: Seq<Seq<char>>, text: Seq<char>, k: int)
    requires
        disk.head(child(root, ".python-version"@), 256) == Some(text),
        0 <= k < lines(text).len(),
        trim(lines(text)[k]).len() > 0,
        forall|i: int| 0 <= i < k ==> trim(#[trigger] lines(text)[i]).len() == 0,
    ensures
        pinned_version(disk, root) == Some(trim(lines(text)[k])),
{
    let f = full_line();
    assert forall|i: int| 0 <= i < k implies f(#[trigger] lines(text)[i]) is None by {}
    lemma_first_given(lines(text), f, k);
}

/// The first line that sets the channel pins the toolchain, in `rust-toolchain.toml` before
/// `rust-toolchain`.
pub proof fn law_a_rust_pin(
    disk: DiskView,
    root: Seq<Seq<char>>,
    text: Seq<char>,
    k: int,
    channel: Seq<char>,
)
    requires
        disk.head(child(root, "rust-toolchain.toml"@), 4096) == Some(text),
        0 <= k < lines(text).len(),
        lines(text)[k] == quoted_line("channel"@, channel),
        free_of(channel, '"'),
        forall|i: int| 0 <= i < k ==> !"channel"@.is_prefix_of(trim(#[trigger] lines(text)[i])),
    ensures
        pinned_channel(disk, root) == Some(channel),
{
    reveal_strlit("channel");
    let f = toml_line("channel"@);
    lemma_toml_text("channel"@, channel);
    assert forall|i: int| 0 <= i < k implies f(#[trigger] lines(text)[i]) is None by {
        let t = trim(lines(text)[i]);
        if starts(t, "channel"@) {
            assert(t.subrange(0, "channel"@.len() as int) =~= t.take("channel"@.len() as int));
        }
    }
    lemma_first_given(lines(text), f, k);
}

/// A name tells something where it is at least four bytes long and none of the common ones.
pub proof fn law_which_names_tell(name: Seq<char>)
    ensures
        ({
            let l = lowered(name);
            telling_name(name) <==> byte_len(l) >= 4 && l != "test"@ && l != "demo"@ && l != "core"@
                && l != "main"@ && l != "app"@ && l != "web"@ && l != "api"@ && l != "src"@ && l
                != "ui"@ && l != "cli"@ && l != "lib"@
        }),
{
}

/// A session was held where one of its files says, and nowhere else; with few files each is read.
pub proof fn law_where_sessions_were_held(disk: DiskView, dir: Seq<Seq<char>>, e: int)
    requires
        disk.list(dir) is Some,
    ensures
        match dir_cwd(disk, dir, 5, 65536) {
            Some(c) => exists|i: int|
                0 <= i < disk.list(dir)->0.len() && extension_of(
                    (#[trigger] disk.list(dir)->0[i]).0,
                ) == Some("jsonl"@) && disk.head(child(dir, disk.list(dir)->0[i].0), 65536) is Some
                    && cwd_in(disk.head(child(dir, disk.list(dir)->0[i].0), 65536)->0) == Some(c),
            None => disk.list(dir)->0.len() <= 5 && 0 <= e < disk.list(dir)->0.len() && extension_of(
                disk.list(dir)->0[e].0,
            ) == Some("jsonl"@) && disk.head(child(dir, disk.list(dir)->0[e].0), 65536) is Some
                ==> cwd_in(disk.head(child(dir, disk.list(dir)->0[e].0), 65536)->0) is None,
        },
{
    let l = disk.list(dir)->0;
    let pick = session_file(dir);
    let files = l.filter_map(pick);
    let some = first_of(files, 5);
    let f = cwd_at(disk, 65536);
    lemma_given(some, f);
    match dir_cwd(disk, dir, 5, 65536) {
        Some(c) => {
            let k = choose|k: int| 0 <= k < some.len() && f(#[trigger] some[k]) == Some(c);
            let i = lemma_picked_from(l, pick, k);
            assert(extension_of(l[i].0) == Some("jsonl"@));
        },
        None => {
            if l.len() <= 5 && 0 <= e < l.len() && extension_of(l[e].0) == Some("jsonl"@) {
                let k = lemma_picked(l, pick, e);
                lemma_fewer(l, pick);
                assert(f(some[k]) is None);
            }
        },
    }
}

proof fn lemma_fewer<A, B>(s: Seq<A>, f: spec_fn(A) -> Option<B>)
    ensures
        s.filter_map(f).len() <= s.len(),
    decreases s.len(),
{
    reveal(Seq::filter_map);
    if s.len() > 0 {
        lemma_fewer(s.drop_last(), f);
    }
}

} // verus!
