//! What holds of the claims that each ecosystem's own resolver makes for a project.

use vstd::prelude::*;

use crate::attribution::model::{ClaimView, EntryKind, EnvView, EvidenceTier};
use crate::attribution::paths::node_in;
use crate::attribution::projects::ProjectView;
use crate::disk::{DiskView, NodeKind, Stat};
use crate::fspath::{child, path_text};
use crate::order::{chars_lt, lemma_chars_lt_total, lemma_chars_lt_transitive};
use crate::scan::DirView;
use crate::seqs::{flat, lemma_in_flat, lemma_picked};
use crate::text::{lines, starts, swapped, trim, trim_start};
use crate::text_laws::{
    free_of, law_trim_takes_off_what_is_around, lemma_first_place, lemma_trim_tight, tight,
};

use super::common::{greatest_with, names_in, prefixed_claim, real_dir, real_dirs};
use super::derive::{existing, module_paths};
use super::go::{go_claims, module_claims};
use super::node::{
    bun_claims_of, cached_claims, cached_prefix, node_claims, npm_claims_of, pnpm_claims_of,
    yarn_claims_of,
};
use super::parser_laws::{quoted_line, writable};
use super::parsers::{
    bun_packages, commented_json, go_modules, lock_start, yarn_line, KeyView, LockPackageView,
    LockState,
};
use super::python::{cache_claim, python_claims};
use super::rust::{
    block_line, block_packages, dirs_locks, holds_lock, index_claims, lock_claims, lock_evidence,
    lock_in, may_hold_lock, package_claims, pinned_channel, project_locks, rust_claims, toml_text,
    toolchain_claims, tree_locks,
};

verus! {

/// Whether the claims hold one of the project on a path: of this kind and ecosystem, as sure as this.
pub open spec fn holds_claim(
    r: Seq<ClaimView>,
    p: ProjectView,
    at: Seq<Seq<char>>,
    kind: EntryKind,
    tier: EvidenceTier,
    ecosystem: Option<Seq<char>>,
) -> bool {
    exists|j: int|
        0 <= j < r.len() && (#[trigger] r[j]).path == at && r[j].owner == path_text(p.root)
            && r[j].kind == kind && r[j].tier == tier && r[j].ecosystem == ecosystem
            && !r[j].baseline && !r[j].clone_of_store && !r[j].virtual_bytes && !r[j].stale
}

/// The value of a quoted line, as Cargo's files have it.
pub proof fn lemma_toml_text(key: Seq<char>, value: Seq<char>)
    requires
        tight(key),
        key.len() > 0,
        free_of(value, '"'),
    ensures
        toml_text(quoted_line(key, value), key) == Some(value),
        trim(quoted_line(key, value)) == quoted_line(key, value),
{
    reveal_strlit(" = \"");
    reveal_strlit("\"");
    reveal_strlit("=");
    let line = quoted_line(key, value);
    assert(line[0] == key[0]);
    assert(line.last() == '"');
    lemma_trim_tight(line);
    let rest = " = \""@ + value + "\""@;
    assert(line.take(key.len() as int) =~= key);
    assert(line.skip(key.len() as int) =~= rest);
    let eq = seq!['=', ' ', '"'] + value + seq!['"'];
    law_trim_takes_off_what_is_around(seq![' '], eq, seq![]);
    assert(seq![' '] + eq + seq![] =~= rest);
    assert(eq + seq![] =~= eq);
    assert(trim_start(rest) == eq);
    let quoted = seq!['"'] + value + seq!['"'];
    assert(eq.take(1) =~= "="@);
    assert(eq.skip(1) =~= seq![' '] + quoted);
    law_trim_takes_off_what_is_around(seq![' '], quoted, seq![]);
    assert(seq![' '] + quoted + seq![] =~= seq![' '] + quoted);
    assert(quoted.take(1) =~= "\""@);
    let inner = quoted.skip(1);
    assert(inner =~= value + seq!['"'] + seq![]);
    lemma_first_place(value, seq![], '"');
}

proof fn lemma_other_toml_key(line: Seq<char>, key: Seq<char>)
    requires
        line.len() > 0,
        key.len() > 0,
        line[0] != key[0],
    ensures
        toml_text(line, key) is None,
{
    if starts(line, key) {
        assert(line.take(key.len() as int)[0] == line[0]);
    }
}

proof fn lemma_block_header_closes(l: Seq<Seq<char>>, m: Seq<Seq<char>>, s: LockState)
    requires
        m.len() > 0,
        trim(m[0]) == "[[package]]"@,
    ensures
        block_packages(l + m, s) == block_packages(l, s) + block_packages(
            m.skip(1),
            lock_start(true),
        ),
    decreases l.len(),
{
    if l.len() == 0 {
        assert(l + m =~= m);
        assert(block_packages(l, s) =~= s.package());
    } else {
        let t = trim(l[0]);
        assert((l + m)[0] == l[0]);
        assert((l + m).skip(1) =~= l.skip(1) + m);
        if t == "[[package]]"@ {
            lemma_block_header_closes(l.skip(1), m, lock_start(true));
            assert(block_packages(l + m, s) =~= block_packages(l, s) + block_packages(
                m.skip(1),
                lock_start(true),
            ));
        } else if !s.open {
            lemma_block_header_closes(l.skip(1), m, s);
        } else {
            lemma_block_header_closes(l.skip(1), m, block_line(s, t));
        }
    }
}

/// A block that is written behind a `Cargo.lock` is one package more for the resolver of Rust too, behind
/// all others.
pub proof fn law_a_further_block_for_rust(l: Seq<Seq<char>>, p: LockPackageView)
    requires
        writable(p),
    ensures
        block_packages(
            l + (seq![
                "[[package]]"@,
                quoted_line("name"@, p.name),
                quoted_line("version"@, p.version),
            ] + (if p.source is Some {
                seq![quoted_line("source"@, p.source->0)]
            } else {
                seq![]
            })),
            lock_start(false),
        ) == block_packages(l, lock_start(false)).push(p),
{
    reveal_strlit("[[package]]");
    reveal_strlit("name");
    reveal_strlit("version");
    reveal_strlit("source");
    reveal_strlit(" = \"");
    reveal_strlit("\"");
    let l0 = "[[package]]"@;
    let l1 = quoted_line("name"@, p.name);
    let l2 = quoted_line("version"@, p.version);
    let tail: Seq<Seq<char>> = if p.source is Some {
        seq![quoted_line("source"@, p.source->0)]
    } else {
        seq![]
    };
    let m = seq![l0, l1, l2] + tail;
    lemma_trim_tight(l0);
    lemma_block_header_closes(l, m, lock_start(false));
    lemma_toml_text("name"@, p.name);
    lemma_toml_text("version"@, p.version);
    assert(l1[0] == 'n' && l2[0] == 'v');
    lemma_other_toml_key(l2, "name"@);
    let s0 = lock_start(true);
    let s1 = LockState { name: Some(p.name), ..s0 };
    let s2 = LockState { version: Some(p.version), ..s1 };
    let a = m.skip(1);
    assert(l0[0] == '[');
    assert(a[0] == l1);
    assert(l1 != l0 && l2 != l0);
    assert(block_packages(a, s0) == block_packages(a.skip(1), s1));
    let b = a.skip(1);
    assert(b[0] == l2);
    assert(block_packages(b, s1) == block_packages(b.skip(1), s2));
    let c = b.skip(1);
    assert(c =~= tail);
    if p.source is Some {
        let l3 = quoted_line("source"@, p.source->0);
        lemma_toml_text("source"@, p.source->0);
        assert(l3[0] == 's');
        lemma_other_toml_key(l3, "name"@);
        lemma_other_toml_key(l3, "version"@);
        assert(l3 != l0);
        let s3 = LockState { source: p.source, ..s2 };
        assert(c[0] == l3);
        assert(block_packages(c, s2) == block_packages(c.skip(1), s3));
        assert(c.skip(1).len() == 0);
        assert(s3.package() =~= seq![p]);
    } else {
        assert(s2.package() =~= seq![p]);
    }
    assert(block_packages(l + m, lock_start(false)) =~= block_packages(l, lock_start(false)).push(p));
}

/// A crate from a registry that a lock file of the project locks is claimed in every registry's cache
/// where its archive lies, and in every registry's sources where it is unpacked.
#[verifier::rlimit(40)]
pub proof fn law_rust_claims_a_locked_crate(
    p: ProjectView,
    env: EnvView,
    disk: DiskView,
    f: int,
    text: Seq<char>,
    n: int,
    d: int,
)
    requires
        0 <= f < project_locks(p.root, env, disk).len(),
        disk.head(project_locks(p.root, env, disk)[f], 4194304) == Some(text),
        0 <= n < block_packages(lines(text), lock_start(false)).len(),
        ({
            let k = block_packages(lines(text), lock_start(false))[n];
            k.source is Some && k.source->0.len() > 0 && !starts(k.source->0, "git+"@)
        }),
        disk.list(child(env.home, ".cargo/registry/cache"@)) is Some,
        0 <= d < disk.list(child(env.home, ".cargo/registry/cache"@))->0.len(),
        disk.stat(
            child(
                child(env.home, ".cargo/registry/cache"@),
                disk.list(child(env.home, ".cargo/registry/cache"@))->0[d].0,
            ),
        ) == Stat::Dir,
    ensures
        ({
            let k = block_packages(lines(text), lock_start(false))[n];
            let idx = disk.list(child(env.home, ".cargo/registry/cache"@))->0[d].0;
            let file = child(
                child(child(env.home, ".cargo/registry/cache"@), idx),
                k.name + "-"@ + k.version + ".crate"@,
            );
            let dir = child(
                child(child(env.home, ".cargo/registry/src"@), idx),
                k.name + "-"@ + k.version,
            );
            &&& disk.stat(file) != Stat::Absent ==> holds_claim(
                rust_claims(p, env, disk),
                p,
                file,
                EntryKind::PackageCache,
                EvidenceTier::Exact,
                Some("rust"@),
            )
            &&& disk.stat(dir) != Stat::Absent ==> holds_claim(
                rust_claims(p, env, disk),
                p,
                dir,
                EntryKind::PackageCache,
                EvidenceTier::Exact,
                Some("rust"@),
            )
        }),
{
    let files = project_locks(p.root, env, disk);
    let g = lock_claims(p, env.home, disk);
    let ks = block_packages(lines(text), lock_start(false));
    let k = ks[n];
    let ev = lock_evidence(p.root, files[f]);
    let h = package_claims(disk, env.home, path_text(p.root), ev);
    let cache = child(env.home, ".cargo/registry/cache"@);
    let dirs = real_dirs(disk, cache);
    let idx = disk.list(cache)->0[d].0;
    let at = lemma_picked(disk.list(cache)->0, real_dir(disk, cache), d);
    assert(dirs[at] == idx);
    let q = index_claims(disk, env.home, path_text(p.root), k, ev);
    let file = child(
        child(child(env.home, ".cargo/registry/cache"@), idx),
        k.name + "-"@ + k.version + ".crate"@,
    );
    let dir = child(
        child(child(env.home, ".cargo/registry/src"@), idx),
        k.name + "-"@ + k.version,
    );
    let cs = q(idx);
    let first = if disk.present(file) {
        1int
    } else {
        0int
    };
    let all = rust_claims(p, env, disk);
    let locks = flat(files, g);
    assert(h(k) == flat(dirs, q));
    assert(g(files[f]) == flat(ks, h));
    if disk.stat(file) != Stat::Absent {
        assert(cs[0].path == file);
        let a = lemma_in_flat(dirs, q, at, 0);
        let b = lemma_in_flat(ks, h, n, a);
        let c = lemma_in_flat(files, g, f, b);
        assert(all[c] == locks[c].tagged("rust"@));
    }
    if disk.stat(dir) != Stat::Absent {
        assert(cs[first].path == dir);
        let a = lemma_in_flat(dirs, q, at, first);
        let b = lemma_in_flat(ks, h, n, a);
        let c = lemma_in_flat(files, g, f, b);
        assert(all[c] == locks[c].tagged("rust"@));
    }
}

/// The lock file in a project's root is one of its lock files.
pub proof fn law_the_roots_lock_file_counts(
    p: ProjectView,
    env: EnvView,
    disk: DiskView,
    e: int,
)
    requires
        node_in(env.trees, p.root) is Some,
        disk.list(p.root) is Some,
        0 <= e < disk.list(p.root)->0.len(),
        disk.list(p.root)->0[e] == ("Cargo.lock"@, NodeKind::File),
    ensures
        project_locks(p.root, env, disk).len() > 0,
        project_locks(p.root, env, disk)[0] == child(p.root, "Cargo.lock"@),
{
    let l = disk.list(p.root)->0;
    assert(l[e].0 == "Cargo.lock"@ && l[e].1 != NodeKind::Dir);
    assert(holds_lock(l));
}

/// A lock file in a directory of the root counts too, and in one below that, and so on five levels down:
/// where the names on the way are looked into.
pub proof fn law_lock_files_below_count(
    env: EnvView,
    disk: DiskView,
    at: Seq<Seq<char>>,
    node: DirView,
    deeper: nat,
    k: int,
)
    requires
        deeper > 0,
        0 <= k < node.children.len(),
        !"."@.is_prefix_of(node.children[k].name),
        node.children[k].name != "target"@,
        node.children[k].name != "node_modules"@,
        node.children[k].name != "Pods"@,
    ensures
        ({
            let d = node.children[k];
            let below = tree_locks(disk, child(at, d.name), d, (deeper - 1) as nat);
            forall|i: int|
                0 <= i < below.len() ==> tree_locks(disk, at, node, deeper).contains(
                    #[trigger] below[i],
                )
        }),
        forall|root: Seq<Seq<char>>|
            node_in(env.trees, root) is Some ==> #[trigger] project_locks(root, env, disk)
                == tree_locks(disk, root, node_in(env.trees, root)->0, 5),
{
    reveal_strlit(".");
    reveal_strlit(".build");
    let d = node.children[k];
    let below = tree_locks(disk, child(at, d.name), d, (deeper - 1) as nat);
    if starts(d.name, "."@) {
        assert(d.name.subrange(0, 1) =~= d.name.take(1));
    }
    if d.name == ".build"@ {
        assert(d.name.subrange(0, 1) =~= "."@);
    }
    lemma_locks_below(disk, at, node.children, deeper, k);
    let here = lock_in(disk, at);
    let dirs = dirs_locks(disk, at, node.children, deeper);
    assert forall|i: int| 0 <= i < below.len() implies tree_locks(disk, at, node, deeper).contains(
        #[trigger] below[i],
    ) by {
        let j = choose|j: int| 0 <= j < dirs.len() && dirs[j] == below[i];
        assert(tree_locks(disk, at, node, deeper)[here.len() + j] == below[i]);
    }
}

proof fn lemma_locks_below(
    disk: DiskView,
    at: Seq<Seq<char>>,
    dirs: Seq<DirView>,
    deeper: nat,
    k: int,
)
    requires
        deeper > 0,
        0 <= k < dirs.len(),
        may_hold_lock(dirs[k].name),
    ensures
        ({
            let below = tree_locks(disk, child(at, dirs[k].name), dirs[k], (deeper - 1) as nat);
            forall|i: int|
                0 <= i < below.len() ==> dirs_locks(disk, at, dirs, deeper).contains(
                    #[trigger] below[i],
                )
        }),
    decreases dirs.len(),
{
    let all = dirs_locks(disk, at, dirs, deeper);
    let below = tree_locks(disk, child(at, dirs[k].name), dirs[k], (deeper - 1) as nat);
    let f = dirs.drop_last();
    let front = dirs_locks(disk, at, f, deeper);
    if k < f.len() {
        assert(f[k] == dirs[k]);
        lemma_locks_below(disk, at, f, deeper, k);
    }
    assert forall|i: int| 0 <= i < below.len() implies all.contains(#[trigger] below[i]) by {
        if k < f.len() {
            let j = choose|j: int| 0 <= j < front.len() && front[j] == below[i];
            assert(all[all.len() - front.len() + j] == below[i]);
        } else {
            assert(all[i] == below[i]);
        }
    }
}

/// The toolchain that a project pins is claimed where it is installed under that very name.
pub proof fn law_rust_claims_the_pinned_toolchain(
    p: ProjectView,
    env: EnvView,
    disk: DiskView,
    channel: Seq<char>,
    e: int,
)
    requires
        pinned_channel(disk, p.root) == Some(channel),
        disk.list(child(env.home, ".rustup/toolchains"@)) is Some,
        0 <= e < disk.list(child(env.home, ".rustup/toolchains"@))->0.len(),
        disk.list(child(env.home, ".rustup/toolchains"@))->0[e].0 == channel,
    ensures
        holds_claim(
            rust_claims(p, env, disk),
            p,
            child(child(env.home, ".rustup/toolchains"@), channel),
            EntryKind::Toolchain,
            EvidenceTier::Exact,
            Some("rust"@),
        ),
{
    let dir = child(env.home, ".rustup/toolchains"@);
    let names = names_in(disk, dir);
    assert(names[e] == channel);
    assert(names.contains(channel));
    let t = toolchain_claims(p, env.home, disk);
    assert(t.len() == 1);
    let all = rust_claims(p, env, disk);
    assert(all[all.len() - 1] == t[0].tagged("rust"@));
}

/// Of the names that start with a prefix the greatest is one of them, and none of them is greater.
pub proof fn law_the_greatest_name(names: Seq<Seq<char>>, prefix: Seq<char>)
    ensures
        match greatest_with(names, prefix) {
            Some(n) => names.contains(n) && prefix.is_prefix_of(n) && forall|i: int|
                0 <= i < names.len() && prefix.is_prefix_of(#[trigger] names[i]) ==> names[i] == n
                    || chars_lt(names[i], n),
            None => forall|i: int| 0 <= i < names.len() ==> !prefix.is_prefix_of(#[trigger] names[i]),
        },
    decreases names.len(),
{
    if names.len() > 0 {
        let f = names.drop_last();
        let z = names.last();
        law_the_greatest_name(f, prefix);
        assert(names[names.len() - 1] == z);
        assert forall|s: Seq<char>| #[trigger] starts(s, prefix) <==> prefix.is_prefix_of(s) by {
            if starts(s, prefix) {
                assert(s.subrange(0, prefix.len() as int) =~= s.take(prefix.len() as int));
            }
            if prefix.is_prefix_of(s) {
                assert(s.take(prefix.len() as int) =~= prefix);
            }
        }
        assert(starts(z, prefix) <==> prefix.is_prefix_of(z));
        match greatest_with(f, prefix) {
            Some(best) => {
                let i = choose|i: int| 0 <= i < f.len() && f[i] == best;
                assert(names[i] == best);
                let n = greatest_with(names, prefix)->0;
                assert forall|i: int|
                    0 <= i < names.len() && prefix.is_prefix_of(#[trigger] names[i]) implies names[i]
                    == n || chars_lt(names[i], n) by {
                    if i < f.len() {
                        assert(f[i] == names[i]);
                        if n == z && f[i] != best && n != best {
                            lemma_chars_lt_transitive(f[i], best, n);
                        }
                    } else {
                        lemma_chars_lt_total(best, z);
                    }
                }
            },
            None => {
                assert forall|i: int|
                    0 <= i < names.len() && prefix.is_prefix_of(#[trigger] names[i]) implies names[i]
                    == z by {
                    if i < f.len() {
                        assert(f[i] == names[i]);
                    }
                }
            },
        }
    }
}

/// A module that the project's `go.sum` names is claimed wherever the module cache has it.
pub proof fn law_go_claims_a_module(
    p: ProjectView,
    env: EnvView,
    disk: DiskView,
    text: Seq<char>,
    m: int,
    n: int,
)
    requires
        disk.head(child(p.root, "go.sum"@), 2097152) == Some(text),
        0 <= m < go_modules(lines(text)).len(),
        0 <= n < 4,
        disk.stat(module_paths(env, go_modules(lines(text))[m])[n]) != Stat::Absent,
    ensures
        holds_claim(
            go_claims(p, env, disk),
            p,
            module_paths(env, go_modules(lines(text))[m])[n],
            EntryKind::PackageCache,
            EvidenceTier::Exact,
            Some("go"@),
        ),
{
    let keys = go_modules(lines(text));
    let key = keys[m];
    let all = module_paths(env, key);
    let pick = |q: Seq<Seq<char>>|
        if disk.present(q) {
            Some(q)
        } else {
            None
        };
    let k = lemma_picked(all, pick, n);
    assert(existing(disk, all) == all.filter_map(pick));
    let f = module_claims(p, env, disk);
    assert(f(key)[k].path == all[n]);
    let j = lemma_in_flat(keys, f, m, k);
    let r = go_claims(p, env, disk);
    assert(r[j] == flat(keys, f)[j].tagged("go"@));
}

/// Where the module cache keeps a module: its sources under the module's escaped path and version, and
/// the files of its download under the version.
pub proof fn law_places_of_a_module(env: EnvView, key: KeyView)
    ensures
        module_paths(env, key).len() == 4,
        module_paths(env, key)[0] == child(
            super::parsers::mod_cache(env),
            flat(key.name, super::parsers::escaped_char()) + "@"@ + key.version,
        ),
        forall|i: int|
            1 <= i < 4 ==> #[trigger] module_paths(env, key)[i] == child(
                child(
                    child(
                        child(super::parsers::mod_cache(env), "cache/download"@),
                        flat(key.name, super::parsers::escaped_char()),
                    ),
                    "@v"@,
                ),
                key.version + (if i == 1 {
                    ".zip"@
                } else if i == 2 {
                    ".mod"@
                } else {
                    ".info"@
                }),
            ),
        env.go_mod_cache is None && env.go_path is None ==> super::parsers::mod_cache(env) == child(
            env.home,
            "go/pkg/mod"@,
        ),
{
}

/// A package that the project's `yarn.lock` resolves, or its `bun.lock` lists, is claimed in the cache of
/// the one or the other, under every name that starts like the package's.
#[verifier::rlimit(40)]
pub proof fn law_node_claims_a_cached_package(
    p: ProjectView,
    env: EnvView,
    disk: DiskView,
    yarn: bool,
    text: Seq<char>,
    name: Seq<char>,
    version: Seq<char>,
    e: int,
)
    requires
        disk.stat(child(p.root, "package.json"@)) != Stat::Absent,
        yarn ==> disk.head(child(p.root, "yarn.lock"@), 8388608) == Some(text) && lines(
            text,
        ).filter_map(yarn_line()).contains((name, version)),
        !yarn ==> disk.head(child(p.root, "bun.lock"@), 8388608) == Some(text) && commented_json(
            text,
        ) is Some && bun_packages(commented_json(text)->0).contains((name, version)),
        ({
            let dir = child(
                env.home,
                if yarn {
                    "Library/Caches/Yarn/berry/cache"@
                } else {
                    ".bun/install/cache"@
                },
            );
            &&& disk.list(dir) is Some
            &&& 0 <= e < disk.list(dir)->0.len()
            &&& (if yarn {
                swapped(name, '/', '-') + "-npm-"@ + version + "-"@
            } else {
                name + "@"@ + version
            }).is_prefix_of(disk.list(dir)->0[e].0)
        }),
    ensures
        ({
            let dir = child(
                env.home,
                if yarn {
                    "Library/Caches/Yarn/berry/cache"@
                } else {
                    ".bun/install/cache"@
                },
            );
            holds_claim(
                node_claims(p, env, disk),
                p,
                child(dir, disk.list(dir)->0[e].0),
                EntryKind::PackageCache,
                EvidenceTier::Exact,
                Some("node"@),
            )
        }),
{
    let dir = child(
        env.home,
        if yarn {
            "Library/Caches/Yarn/berry/cache"@
        } else {
            ".bun/install/cache"@
        },
    );
    let l = disk.list(dir)->0;
    let pkg = (name, version);
    let prefix = cached_prefix(yarn, pkg);
    assert(l[e].0.take(prefix.len() as int) =~= prefix);
    let pairs = if yarn {
        lines(text).filter_map(yarn_line())
    } else {
        bun_packages(commented_json(text)->0)
    };
    let m = choose|m: int| 0 <= m < pairs.len() && pairs[m] == pkg;
    let f = cached_claims(disk, dir, path_text(p.root), yarn);
    let pick = prefixed_claim(
        dir,
        path_text(p.root),
        EvidenceTier::Exact,
        prefix,
        super::node::lock_name(yarn),
        name + " "@ + version,
    );
    assert(pick(l[e]) is Some);
    let k = lemma_picked(l, pick, e);
    assert(f(pkg) == l.filter_map(pick));
    let j = lemma_in_flat(pairs, f, m, k);
    let c = flat(pairs, f)[j];
    let a = pnpm_claims_of(p, env.home, disk);
    let b = npm_claims_of(p, env.home, disk);
    let y = yarn_claims_of(p, env.home, disk);
    let r = node_claims(p, env, disk);
    if yarn {
        assert(y[j] == c);
        assert(r[a.len() + b.len() + j] == c.tagged("node"@));
    } else {
        assert(bun_claims_of(p, env.home, disk)[j] == c);
        assert(r[a.len() + b.len() + y.len() + j] == c.tagged("node"@));
    }
}

/// The caches of uv and of Poetry are claimed by the projects that lock with them.
pub proof fn law_python_claims_the_caches(p: ProjectView, env: EnvView, disk: DiskView)
    ensures
        disk.stat(child(p.root, "uv.lock"@)) != Stat::Absent && disk.stat(
            child(env.home, ".cache/uv"@),
        ) != Stat::Absent ==> holds_claim(
            python_claims(p, env, disk),
            p,
            child(env.home, ".cache/uv"@),
            EntryKind::PackageCache,
            EvidenceTier::EcosystemDefault,
            Some("python"@),
        ),
        disk.stat(child(p.root, "poetry.lock"@)) != Stat::Absent && disk.stat(
            child(env.home, "Library/Caches/pypoetry"@),
        ) != Stat::Absent ==> holds_claim(
            python_claims(p, env, disk),
            p,
            child(env.home, "Library/Caches/pypoetry"@),
            EntryKind::PackageCache,
            EvidenceTier::EcosystemDefault,
            Some("python"@),
        ),
{
    let r = python_claims(p, env, disk);
    let pinned = match super::python::pinned_version(disk, p.root) {
        Some(v) => super::python::version_claims(disk, env.home, path_text(p.root), v),
        None => seq![],
    };
    let a = cache_claim(
        disk,
        p,
        "uv.lock"@,
        child(env.home, ".cache/uv"@),
        "uv.lock present"@,
        "uv cache"@,
    );
    let b = cache_claim(
        disk,
        p,
        "poetry.lock"@,
        child(env.home, "Library/Caches/pypoetry"@),
        "poetry.lock present"@,
        "Poetry cache"@,
    );
    if a.len() > 0 {
        assert(r[pinned.len() as int] == a[0].tagged("python"@));
    }
    if b.len() > 0 {
        assert(r[pinned.len() + a.len() as int] == b[0].tagged("python"@));
    }
}

} // verus!
