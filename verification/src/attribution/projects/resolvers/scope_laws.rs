//! What holds of every claim that a resolver makes for a project: it rests on something that names the
//! project or that the project names.

use vstd::prelude::*;

use crate::attribution::model::EnvView;
use crate::attribution::paths::canonical;
use crate::attribution::projects::ProjectView;
use crate::disk::{DiskView, Stat};
use crate::fspath::{child, path_of, path_text};
use crate::seqs::{flat, lemma_from_flat, lemma_picked_from};
use crate::text::{lines, lowered, starts};

use super::agents::{of_entries, sessions_claim, sessions_in};
use super::caches::{cache_claim, cache_claims_in, is_candidate};
use super::claim_laws::lies_in;
use super::common::{prefixed_claim, real_dirs};
use super::derive::{cache_parents, existing, module_paths, name_variants, telling_name};
use super::editors::{app_window_claims, folder_in, vscode_family, window_claim};
use super::go::{go_claims, module_claims};
use super::link_laws::lemma_lies;
use super::links::{bundle_id_of, dir_cwd};
use super::node::{cached_claims, cached_prefix, lock_name, yarn_claims_of};
use super::parsers::{encoded_dir, go_modules, yarn_line, LockPackageView};
use super::rust::{index_claims, package_claims};
use super::simulator::{
    container_claim, containers_claims, device_claims, devices_in, id_of_container,
    simulator_claims,
};
use super::templates::entry_paths;

verus! {

proof fn lemma_starts(s: Seq<char>, p: Seq<char>)
    requires
        starts(s, p),
    ensures
        p.is_prefix_of(s),
{
    assert(s.subrange(0, p.len() as int) =~= s.take(p.len() as int));
}

/// A project that uses Go claims nothing in the module cache but modules that its `go.sum` names.
pub proof fn law_go_claims_no_other_modules(
    p: ProjectView,
    env: EnvView,
    disk: DiskView,
    text: Seq<char>,
    j: int,
)
    requires
        disk.head(child(p.root, "go.sum"@), 2097152) == Some(text),
        0 <= j < go_claims(p, env, disk).len(),
    ensures
        exists|m: int, n: int|
            0 <= m < go_modules(lines(text)).len() && 0 <= n < 4 && go_claims(p, env, disk)[j].path
                == #[trigger] module_paths(env, go_modules(lines(text))[m])[n],
        disk.stat(go_claims(p, env, disk)[j].path) != Stat::Absent,
        go_claims(p, env, disk)[j].owner == path_text(p.root),
{
    let keys = go_modules(lines(text));
    let f = module_claims(p, env, disk);
    let (m, k) = lemma_from_flat(keys, f, j);
    let all = module_paths(env, keys[m]);
    let pick = |q: Seq<Seq<char>>|
        if disk.present(q) {
            Some(q)
        } else {
            None
        };
    assert(existing(disk, all) == all.filter_map(pick));
    let n = lemma_picked_from(all, pick, k);
    assert(go_claims(p, env, disk)[j].path == module_paths(env, keys[m])[n]);
}

/// Of yarn's cache a project claims nothing but what is called like a package that its lock file
/// resolves, with the version and a dash behind it.
pub proof fn law_yarn_claims_no_other_packages(
    p: ProjectView,
    home: Seq<Seq<char>>,
    disk: DiskView,
    text: Seq<char>,
    j: int,
)
    requires
        disk.head(child(p.root, "yarn.lock"@), 8388608) == Some(text),
        0 <= j < yarn_claims_of(p, home, disk).len(),
    ensures
        exists|m: int, name: Seq<char>|
            0 <= m < lines(text).filter_map(yarn_line()).len() && yarn_claims_of(
                p,
                home,
                disk,
            )[j].path == #[trigger] child(child(home, "Library/Caches/Yarn/berry/cache"@), name) && ({
                let pkg = #[trigger] lines(text).filter_map(yarn_line())[m];
                (crate::text::swapped(pkg.0, '/', '-') + "-npm-"@ + pkg.1 + "-"@).is_prefix_of(name)
            }),
{
    let pairs = lines(text).filter_map(yarn_line());
    let dir = child(home, "Library/Caches/Yarn/berry/cache"@);
    let f = cached_claims(disk, dir, path_text(p.root), true);
    let (m, k) = lemma_from_flat(pairs, f, j);
    let pkg = pairs[m];
    let prefix = cached_prefix(true, pkg);
    let pick = prefixed_claim(
        dir,
        path_text(p.root),
        crate::attribution::model::EvidenceTier::Exact,
        prefix,
        lock_name(true),
        pkg.0 + " "@ + pkg.1,
    );
    let l = disk.list(dir)->0;
    assert(f(pkg) == l.filter_map(pick));
    let e = lemma_picked_from(l, pick, k);
    lemma_starts(l[e].0, prefix);
    assert(yarn_claims_of(p, home, disk)[j].path == child(dir, l[e].0));
}

/// Of a registry's crates a lock file gives its project nothing but the file and the directory of a
/// package that it locks, in this very version.
pub proof fn law_rust_claims_no_other_crates(
    p: ProjectView,
    home: Seq<Seq<char>>,
    disk: DiskView,
    k: LockPackageView,
    ev: Seq<char>,
    j: int,
)
    requires
        k.source is Some,
        !"git+"@.is_prefix_of(k.source->0),
        0 <= j < package_claims(disk, home, path_text(p.root), ev)(k).len(),
    ensures
        ({
            let c = package_claims(disk, home, path_text(p.root), ev)(k)[j];
            &&& disk.stat(c.path) != Stat::Absent
            &&& exists|idx: Seq<char>|
                c.path == child(
                    #[trigger] child(child(home, ".cargo/registry/cache"@), idx),
                    k.name + "-"@ + k.version + ".crate"@,
                ) || c.path == child(
                    child(child(home, ".cargo/registry/src"@), idx),
                    k.name + "-"@ + k.version,
                )
        }),
{
    let source = k.source->0;
    if starts(source, "git+"@) {
        lemma_starts(source, "git+"@);
    }
    let dirs = real_dirs(disk, child(home, ".cargo/registry/cache"@));
    let q = index_claims(disk, home, path_text(p.root), k, ev);
    let all = package_claims(disk, home, path_text(p.root), ev)(k);
    assert(all == flat(dirs, q));
    let (d, n) = lemma_from_flat(dirs, q, j);
    let idx = dirs[d];
    assert(all[j] == q(idx)[n]);
    assert(child(child(home, ".cargo/registry/cache"@), idx) == child(
        child(home, ".cargo/registry/cache"@),
        idx,
    ));
}

/// A cache is a project's by name only where the name, in lower case, is one of the project's that tells
/// something, or that with its dashes and underscores exchanged.
pub proof fn law_caches_of_other_names_are_not_claimed(
    p: ProjectView,
    env: EnvView,
    j: int,
)
    requires
        0 <= j < flat(cache_parents(), cache_claims_in(p, env.trees, env.home)).len(),
    ensures
        exists|c: int, name: Seq<char>, n: int|
            0 <= c < cache_parents().len() && flat(
                cache_parents(),
                cache_claims_in(p, env.trees, env.home),
            )[j].path == #[trigger] child(child(env.home, cache_parents()[c]), name) && 0 <= n
                < p.names.len() && telling_name(#[trigger] p.names[n]) && lowered(name).len()
                == p.names[n].len(),
{
    let g = cache_claims_in(p, env.trees, env.home);
    let (c, k) = lemma_from_flat(cache_parents(), g, j);
    let rel = cache_parents()[c];
    let dir = child(env.home, rel);
    let names = crate::attribution::apps::candidates::dirs_in(env.trees, dir);
    let e = lemma_picked_from(names, cache_claim(p, dir), k);
    let name = names[e];
    assert(is_candidate(p.names, lowered(name)));
    let n = choose|n: int|
        0 <= n < p.names.len() && telling_name(#[trigger] p.names[n]) && name_variants(
            p.names[n],
        ).contains(lowered(name));
    let v = name_variants(p.names[n]);
    let i = choose|i: int| 0 <= i < v.len() && v[i] == lowered(name);
    assert(v[i].len() == p.names[n].len());
    assert(flat(cache_parents(), g)[j].path == child(dir, name));
}

/// Whether an identifier is one of those listed, or lies below one.
pub open spec fn id_below(ids: Seq<Seq<char>>, id: Seq<char>) -> bool {
    exists|b: int|
        0 <= b < ids.len() && (id == #[trigger] ids[b] || (ids[b] + "."@).is_prefix_of(id))
}

/// What lies in a simulator is a project's only where it belongs to one of its bundle identifiers, or to
/// one below.
pub proof fn law_simulator_data_of_others_is_not_claimed(
    p: ProjectView,
    env: EnvView,
    disk: DiskView,
    j: int,
)
    requires
        0 <= j < simulator_claims(p, env, disk).len(),
    ensures
        exists|programs: bool|
            (#[trigger] id_of_container(
                disk,
                simulator_claims(p, env, disk)[j].path,
                programs,
            )) is Some && id_below(
                p.bundle_ids,
                id_of_container(disk, simulator_claims(p, env, disk)[j].path, programs)->0,
            ),
{
    let dirs = entry_paths(disk, devices_in(env.home), true);
    let g = device_claims(p, disk);
    let (d, k) = lemma_from_flat(dirs, g, j);
    let dir = dirs[d];
    let first = containers_claims(p, disk, dir, "Bundle"@);
    let second = containers_claims(p, disk, dir, "Data"@);
    let both = g(dir);
    assert(both == first + second);
    let kind = if k < first.len() {
        "Bundle"@
    } else {
        "Data"@
    };
    let n = if k < first.len() {
        k
    } else {
        k - first.len()
    };
    let all = entry_paths(
        disk,
        child(child(child(dir, "data/Containers"@), kind), "Application"@),
        true,
    );
    let f = container_claim(
        p,
        disk,
        super::simulator::device_name(disk, dir),
        kind == "Bundle"@,
    );
    assert(containers_claims(p, disk, dir, kind) == all.filter_map(f));
    let e = lemma_picked_from(all, f, n);
    let at = all[e];
    assert(simulator_claims(p, env, disk)[j].path == at);
    let programs = kind == "Bundle"@;
    let id = id_of_container(disk, at, programs)->0;
    assert(bundle_id_of(p.bundle_ids, id));
    let b = choose|b: int|
        0 <= b < p.bundle_ids.len() && (id == #[trigger] p.bundle_ids[b] || starts(
            id,
            p.bundle_ids[b] + "."@,
        ));
    if id != p.bundle_ids[b] {
        lemma_starts(id, p.bundle_ids[b] + "."@);
    }
    assert(id_below(p.bundle_ids, id));
    assert(id_of_container(disk, at, programs) == Some(id));
}

/// The sessions of a coding agent are a project's only where they say that they were held in a checkout
/// of it, or, where they say nothing, where their directory is named after its root.
pub proof fn law_sessions_of_others_are_not_claimed(
    p: ProjectView,
    env: EnvView,
    disk: DiskView,
    j: int,
)
    requires
        0 <= j < of_entries(
            disk,
            sessions_in(env.agent, env.home),
            sessions_claim(env.agent, p, env.home, disk),
        ).len(),
    ensures
        ({
            let dir = sessions_in(env.agent, env.home);
            let c = of_entries(disk, dir, sessions_claim(env.agent, p, env.home, disk))[j];
            exists|e: int|
                0 <= e < disk.list(dir)->0.len() && c.path == child(
                    dir,
                    (#[trigger] disk.list(dir)->0[e]).0,
                ) && match dir_cwd(disk, c.path, 5, 65536) {
                    Some(cwd) => lies_in(p, canonical(path_of(cwd))),
                    None => disk.list(dir)->0[e].0 == encoded_dir(p.root) || (encoded_dir(p.root)
                        + "-"@).is_prefix_of(disk.list(dir)->0[e].0),
                }
        }),
{
    let dir = sessions_in(env.agent, env.home);
    let l = disk.list(dir)->0;
    let f = sessions_claim(env.agent, p, env.home, disk);
    let e = lemma_picked_from(l, f, j);
    let at = child(dir, l[e].0);
    match dir_cwd(disk, at, 5, 65536) {
        Some(cwd) => {
            lemma_lies(p, canonical(path_of(cwd)));
        },
        None => {
            if l[e].0 != encoded_dir(p.root) {
                lemma_starts(l[e].0, encoded_dir(p.root) + "-"@);
            }
        },
    }
    assert(of_entries(disk, dir, f)[j].path == at);
}

/// What an editor keeps of a window is a project's only where the window's folder lies in a checkout of
/// it.
pub proof fn law_windows_of_others_are_not_claimed(
    p: ProjectView,
    home: Seq<Seq<char>>,
    disk: DiskView,
    j: int,
)
    requires
        0 <= j < flat(vscode_family(), app_window_claims(p, home, disk)).len(),
    ensures
        ({
            let c = flat(vscode_family(), app_window_claims(p, home, disk))[j];
            let text = disk.head(child(c.path, "workspace.json"@), 16384);
            text is Some && folder_in(text->0) is Some && lies_in(p, canonical(folder_in(text->0)->0))
        }),
{
    let g = app_window_claims(p, home, disk);
    let (a, k) = lemma_from_flat(vscode_family(), g, j);
    let app = vscode_family()[a];
    let all = entry_paths(disk, super::editors::storage_dir(home, app), true);
    let f = window_claim(p, disk, app);
    let e = lemma_picked_from(all, f, k);
    let at = all[e];
    let text = disk.head(child(at, "workspace.json"@), 16384);
    lemma_lies(p, canonical(folder_in(text->0)->0));
    assert(flat(vscode_family(), g)[j].path == at);
}

} // verus!
