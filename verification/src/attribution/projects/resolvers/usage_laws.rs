//! What a project uses outside its own tree is the project's: what its lock files and manifests name
//! is claimed where it lies.

use vstd::prelude::*;

use crate::attribution::model::{ClaimView, EntryKind, EnvView, EvidenceTier};
use crate::attribution::paths::node_in;
use crate::attribution::projects::ProjectView;
use crate::attribution::projects::discovery_laws::single_name;
use crate::disk::{DiskView, NodeKind, Stat};
use crate::doc::{json_document, text_field};
use crate::fspath::{child, path_text};
use crate::scan::{DirView, FindingId, FindingKind, ScannerId};
use crate::seqs::{first_some, flat, lemma_in_flat, lemma_picked};
use crate::text::{lines, starts, swapped};
use crate::text_laws::free_of;

use super::apply::{
    bare_key, brew_name, finding_for, has_key, key_tokens, manifest_keys, matched, row_claims,
    targets,
};
use super::derive::{existing, module_paths, npm_paths};
use super::parser_laws::{law_written_packages_are_read, lock_text, writable};
use super::parsers::{
    brew_line, go_modules, locked_packages, registry_key, yarn_line, BrewEntryKind, KeyView,
    LockPackageView,
};
use super::rule_laws::{
    by_rule, law_a_star_leads_through_every_entry, law_every_key_of_every_manifest_is_followed,
    law_every_key_of_the_roots_manifest_is_followed, law_manifests_are_found, law_patterns,
    law_plain_templates_lead_home, law_prefixes_lead_to_every_match, law_templates_are_filled,
    law_templates_lead_to_what_is_there, literal, searched_chain, spelled, way_down,
};
use super::rules::{
    agent_lookup_table, brew_lookup_table, caches_lookup_table, go_lookup_table, lookup_table,
    node_lookup_table, python_lookup_table, rust_lookup_table, swift_lookup_table,
    tools_lookup_table, Parse, Select, TargetView, NONE,
};
use super::templates::{filled, globbed, matches_glob};
use super::project_claims;

verus! {

/// Whether a project claims a path: for itself, of this kind and ecosystem.
pub open spec fn claims_path(
    r: Seq<ClaimView>,
    p: ProjectView,
    at: Seq<Seq<char>>,
    kind: EntryKind,
    tier: EvidenceTier,
    ecosystem: Option<Seq<char>>,
) -> bool {
    exists|j: int|
        0 <= j < r.len() && (#[trigger] r[j]).path == at && r[j].owner == path_text(p.root)
            && r[j].kind == kind && r[j].tier == tier && r[j].ecosystem == ecosystem
            && !r[j].baseline && !r[j].clone_of_store && !r[j].virtual_bytes && !r[j].stale
}

proof fn lemma_rows(agent: crate::attribution::model::AgentNames)
    ensures
        ({
            let t = lookup_table(agent);
            &&& t.len() == 30
            &&& forall|i: int| 0 <= i < 6 ==> t[i] == #[trigger] node_lookup_table()[i]
            &&& forall|i: int| 0 <= i < 6 ==> t[i + 6] == #[trigger] rust_lookup_table()[i]
            &&& t[12] == go_lookup_table()[0]
            &&& forall|i: int| 0 <= i < 4 ==> t[i + 13] == #[trigger] python_lookup_table()[i]
            &&& forall|i: int| 0 <= i < 2 ==> t[i + 17] == #[trigger] swift_lookup_table()[i]
            &&& forall|i: int| 0 <= i < 2 ==> t[i + 19] == #[trigger] brew_lookup_table()[i]
            &&& forall|i: int| 0 <= i < 7 ==> t[i + 21] == #[trigger] caches_lookup_table()[i]
        }),
{
    let a = node_lookup_table();
    let b = rust_lookup_table();
    let c = go_lookup_table();
    let d = python_lookup_table();
    let e = swift_lookup_table();
    let f = brew_lookup_table();
    let g = caches_lookup_table();
    let h = tools_lookup_table();
    let i = agent_lookup_table(agent);
    assert(a.len() == 6 && b.len() == 6 && c.len() == 1 && d.len() == 4 && e.len() == 2);
    assert(f.len() == 2 && g.len() == 7 && h.len() == 1 && i.len() == 1);
}

proof fn lemma_row_is_claimed(p: ProjectView, env: EnvView, disk: DiskView, n: int, j: int) -> (k: int)
    requires
        0 <= n < lookup_table(env.agent).len(),
        0 <= j < row_claims(lookup_table(env.agent)[n], p, env, disk).len(),
    ensures
        0 <= k < project_claims(p, env, disk).len(),
        project_claims(p, env, disk)[k] == row_claims(lookup_table(env.agent)[n], p, env, disk)[j],
{
    let rows = lookup_table(env.agent);
    let f = super::apply::claims_of_row(p, env, disk);
    let k = lemma_in_flat(rows, f, n, j);
    let all = project_claims(p, env, disk);
    let a = super::joins::artifact_claims(p, env, disk);
    assert(all[a.len() + k] == flat(rows, f)[k]);
    a.len() + k
}

proof fn lemma_none()
    ensures
        NONE & super::rules::CLONE_OF_STORE == 0,
{
    let c = super::rules::CLONE_OF_STORE;
    assert(0u8 & c == 0) by (bit_vector);
}

proof fn lemma_claimed_by_row(
    p: ProjectView,
    env: EnvView,
    disk: DiskView,
    n: int,
    at: Seq<Seq<char>>,
)
    requires
        0 <= n < lookup_table(env.agent).len(),
        lookup_table(env.agent)[n].flags == NONE,
        exists|j: int|
            0 <= j < row_claims(lookup_table(env.agent)[n], p, env, disk).len() && by_rule(
                #[trigger] row_claims(lookup_table(env.agent)[n], p, env, disk)[j],
                lookup_table(env.agent)[n],
                p,
                at,
            ),
    ensures
        claims_path(
            project_claims(p, env, disk),
            p,
            at,
            lookup_table(env.agent)[n].kind,
            lookup_table(env.agent)[n].tier,
            match lookup_table(env.agent)[n].ecosystem {
                Some(e) => Some(e@),
                None => None,
            },
        ),
{
    let row = lookup_table(env.agent)[n];
    let r = row_claims(row, p, env, disk);
    let j = choose|j: int| 0 <= j < r.len() && by_rule(#[trigger] r[j], row, p, at);
    lemma_none();
    let k = lemma_row_is_claimed(p, env, disk, n, j);
    assert(project_claims(p, env, disk)[k] == r[j]);
}

/// Whether a value can stand in a template's place in the name of one file.
pub open spec fn file_part(s: Seq<char>) -> bool {
    s.len() > 0 && literal(s) && free_of(s, '/')
}

proof fn lemma_tokens(key: KeyView)
    ensures
        key_tokens(key).len() == 5,
        key_tokens(key)[0] == ("name"@, key.name),
        key_tokens(key)[1] == ("version"@, key.version),
        key_tokens(key)[2] == ("key"@, key.name),
        key_tokens(key)[4] == ("name-flat"@, swapped(key.name, '/', '-')),
        "name"@ != "version"@,
        "name"@ != "key"@,
        "version"@ != "key"@,
        "name"@ != "name-flat"@,
        "version"@ != "name-flat"@,
        "key"@ != "name-flat"@,
        "basename"@ != "name-flat"@,
        free_of("name"@, '}'),
        free_of("version"@, '}'),
        free_of("key"@, '}'),
        free_of("name-flat"@, '}'),
{
    reveal_strlit("name");
    reveal_strlit("version");
    reveal_strlit("key");
    reveal_strlit("name-flat");
    reveal_strlit("basename");
    assert("name"@.len() == 4 && "version"@.len() == 7 && "key"@.len() == 3);
    assert("name-flat"@.len() == 9 && "basename"@.len() == 8);
}

/// The file of a crate in Cargo's cache.
pub open spec fn crate_file(name: Seq<char>, version: Seq<char>) -> Seq<char> {
    name + seq!['-'] + version + ".crate"@
}

proof fn lemma_crate_template(key: KeyView)
    requires
        file_part(key.name),
        file_part(key.version),
    ensures
        filled("~/.cargo/registry/cache/*/{name}-{version}.crate"@, key_tokens(key)) == "~/"@
            + spelled(
            seq![".cargo"@, "registry"@, "cache"@].push(seq!['*']).push(
                crate_file(key.name, key.version),
            ),
        ),
{
    lemma_tokens(key);
    let tokens = key_tokens(key);
    reveal_strlit("~/.cargo/registry/cache/*/{name}-{version}.crate");
    reveal_strlit("~/");
    reveal_strlit(".cargo");
    reveal_strlit("registry");
    reveal_strlit("cache");
    reveal_strlit(".crate");
    reveal_strlit("name");
    reveal_strlit("version");
    let t = "~/.cargo/registry/cache/*/{name}-{version}.crate"@;
    let front = t.take(26);
    let dash = seq!['-'];
    let tail = ".crate"@;
    let second = seq!['{'] + "version"@ + seq!['}'] + tail;
    let rest = dash + second;
    assert(t =~= front + (seq!['{'] + "name"@ + seq!['}'] + rest));
    assert(free_of(front, '{'));
    assert(free_of(dash, '{'));
    assert(free_of(tail, '{'));
    law_templates_are_filled(front, "name"@, rest, tokens, 0);
    law_templates_are_filled(dash, "version"@, tail, tokens, 1);
    law_templates_are_filled(tail, "version"@, seq![], tokens, 1);
    let file = crate_file(key.name, key.version);
    assert(filled(rest, tokens) == dash + key.version + tail);
    assert(filled(t, tokens) == front + key.name + (dash + key.version + tail));
    let names = seq![".cargo"@, "registry"@, "cache"@].push(seq!['*']).push(file);
    assert(names[0] == ".cargo"@ && names[1] == "registry"@ && names[2] == "cache"@ && names[3]
        == seq!['*'] && names[4] == file);
    let n1 = names.skip(1);
    let n2 = n1.skip(1);
    let n3 = n2.skip(1);
    let n4 = n3.skip(1);
    assert(n4.len() == 1 && n4[0] == file);
    assert(spelled(n4) == file);
    assert(spelled(n3) == seq!['*'] + seq!['/'] + file);
    assert(spelled(n2) == "cache"@ + seq!['/'] + spelled(n3));
    assert(spelled(n1) == "registry"@ + seq!['/'] + spelled(n2));
    assert(spelled(names) == ".cargo"@ + seq!['/'] + spelled(n1));
    assert(front =~= "~/"@ + ".cargo"@ + seq!['/'] + "registry"@ + seq!['/'] + "cache"@ + seq!['/']
        + seq!['*'] + seq!['/']);
    assert(filled(t, tokens) =~= "~/"@ + spelled(names));
}

/// A crate that a `Cargo.lock` of the project locks, at whatever depth down to the fifth the file lies,
/// and whose archive is in Cargo's cache, is claimed by the project.
#[verifier::rlimit(40)]
pub proof fn law_a_locked_crate_is_claimed(
    p: ProjectView,
    env: EnvView,
    disk: DiskView,
    chain: Seq<DirView>,
    e: int,
    ps: Seq<LockPackageView>,
    i: int,
    d: int,
)
    requires
        node_in(env.trees, p.root) == Some(chain[0]),
        searched_chain(chain),
        chain.len() <= 6,
        disk.list(way_down(p.root, chain)) is Some,
        0 <= e < disk.list(way_down(p.root, chain))->0.len(),
        disk.list(way_down(p.root, chain))->0[e] == ("Cargo.lock"@, NodeKind::File),
        disk.head(child(way_down(p.root, chain), "Cargo.lock"@), 8388608) == Some(lock_text(ps)),
        forall|n: int| 0 <= n < ps.len() ==> writable(#[trigger] ps[n]),
        0 <= i < ps.len(),
        ps[i].source is Some,
        ps[i].source->0.len() > 0,
        !starts(ps[i].source->0, "git+"@),
        file_part(ps[i].name),
        file_part(ps[i].version),
        ({
            let cache = env.home + seq![".cargo"@, "registry"@, "cache"@];
            &&& disk.list(cache) is Some
            &&& 0 <= d < disk.list(cache)->0.len()
            &&& single_name(disk.list(cache)->0[d].0)
            &&& disk.stat(
                cache.push(disk.list(cache)->0[d].0).push(crate_file(ps[i].name, ps[i].version)),
            ) != Stat::Absent
        }),
    ensures
        ({
            let cache = env.home + seq![".cargo"@, "registry"@, "cache"@];
            claims_path(
                project_claims(p, env, disk),
                p,
                cache.push(disk.list(cache)->0[d].0).push(crate_file(ps[i].name, ps[i].version)),
                EntryKind::PackageCache,
                EvidenceTier::Exact,
                Some("rust"@),
            )
        }),
{
    let row = rust_lookup_table()[0];
    assert(lookup_table(env.agent).len() == 30 && lookup_table(env.agent)[6] == row) by {
        lemma_rows(env.agent);
        assert(lookup_table(env.agent)[0int + 6] == rust_lookup_table()[0]);
    }
    let key = KeyView { name: ps[i].name, version: ps[i].version, extra: None };
    let file = child(way_down(p.root, chain), "Cargo.lock"@);
    let names = seq!["Cargo.lock"];
    let text = lock_text(ps);
    let cache = env.home + seq![".cargo"@, "registry"@, "cache"@];
    let at = cache.push(disk.list(cache)->0[d].0).push(crate_file(ps[i].name, ps[i].version));
    lemma_lock_is_found(env, disk, p.root, chain, e);
    lemma_crate_is_a_key(ps, i);
    lemma_crate_is_a_target(p, env, disk, key, d);
    law_every_key_of_every_manifest_is_followed(
        row,
        names,
        5,
        8388608,
        Parse::CargoRegistry,
        p,
        env,
        disk,
        file,
        text,
        key,
        at,
        None,
    );
    lemma_claimed_by_row(p, env, disk, 6, at);
}

proof fn lemma_lock_is_found(
    env: EnvView,
    disk: DiskView,
    root: Seq<Seq<char>>,
    chain: Seq<DirView>,
    e: int,
)
    requires
        node_in(env.trees, root) == Some(chain[0]),
        searched_chain(chain),
        chain.len() <= 6,
        disk.list(way_down(root, chain)) is Some,
        0 <= e < disk.list(way_down(root, chain))->0.len(),
        disk.list(way_down(root, chain))->0[e] == ("Cargo.lock"@, NodeKind::File),
    ensures
        super::apply::found_manifests(env, disk, root, seq!["Cargo.lock"], 5).contains(
            child(way_down(root, chain), "Cargo.lock"@),
        ),
{
    let names = seq!["Cargo.lock"];
    assert(matches_glob(names[0]@, "Cargo.lock"@)) by {
        reveal_strlit("Cargo.lock");
        assert(free_of("Cargo.lock"@, '*'));
        law_patterns("Cargo.lock"@, seq![], "Cargo.lock"@);
    }
    law_manifests_are_found(env, disk, root, names, 5, chain, e);
}

proof fn lemma_crate_is_a_key(ps: Seq<LockPackageView>, i: int)
    requires
        forall|n: int| 0 <= n < ps.len() ==> writable(#[trigger] ps[n]),
        0 <= i < ps.len(),
        ps[i].source is Some,
        ps[i].source->0.len() > 0,
        !starts(ps[i].source->0, "git+"@),
    ensures
        manifest_keys(Parse::CargoRegistry, lock_text(ps)).contains(
            KeyView { name: ps[i].name, version: ps[i].version, extra: None },
        ),
{
    law_written_packages_are_read(ps);
    let j = lemma_picked(ps, registry_key(), i);
    let keys = manifest_keys(Parse::CargoRegistry, lock_text(ps));
    assert(keys[j] == (KeyView { name: ps[i].name, version: ps[i].version, extra: None }));
}

proof fn lemma_crate_is_a_target(
    p: ProjectView,
    env: EnvView,
    disk: DiskView,
    key: KeyView,
    d: int,
)
    requires
        file_part(key.name),
        file_part(key.version),
        ({
            let cache = env.home + seq![".cargo"@, "registry"@, "cache"@];
            &&& disk.list(cache) is Some
            &&& 0 <= d < disk.list(cache)->0.len()
            &&& single_name(disk.list(cache)->0[d].0)
            &&& disk.stat(
                cache.push(disk.list(cache)->0[d].0).push(crate_file(key.name, key.version)),
            ) != Stat::Absent
        }),
    ensures
        ({
            let cache = env.home + seq![".cargo"@, "registry"@, "cache"@];
            targets(rust_lookup_table()[0], key, None, p, env, disk).contains(
                (
                    cache.push(disk.list(cache)->0[d].0).push(crate_file(key.name, key.version)),
                    None,
                ),
            )
        }),
{
    let row = rust_lookup_table()[0];
    let dirs = seq![".cargo"@, "registry"@, "cache"@];
    let cache = env.home + dirs;
    let last = crate_file(key.name, key.version);
    let at = cache.push(disk.list(cache)->0[d].0).push(last);
    lemma_crate_template(key);
    assert forall|n: int| 0 <= n < dirs.len() implies literal(#[trigger] dirs[n]) && single_name(
        dirs[n],
    ) by {
        reveal_strlit(".cargo");
        reveal_strlit("registry");
        reveal_strlit("cache");
    }
    assert(literal(last) && single_name(last)) by {
        reveal_strlit(".crate");
        assert(literal(last) && free_of(last, '/'));
        assert(last.len() > 1);
    }
    law_a_star_leads_through_every_entry(disk, env.home, dirs, last, d);
    let templates = seq![
        "~/.cargo/registry/cache/*/{name}-{version}.crate",
        "~/.cargo/registry/src/*/{name}-{version}",
    ];
    assert(row.target == TargetView::Path(templates));
    assert(globbed(disk, filled(templates[0]@, key_tokens(key)), env.home).contains(at));
    law_templates_lead_to_what_is_there(row, templates, key, None, p, env, disk, at);
}

/// A module that the project's `go.sum` names, and whose sources are in the module cache, is claimed by
/// the project; so are the files of its download.
pub proof fn law_a_go_module_is_claimed(
    p: ProjectView,
    env: EnvView,
    disk: DiskView,
    text: Seq<char>,
    key: KeyView,
    n: int,
)
    requires
        disk.head(child(p.root, "go.sum"@), 8388608) == Some(text),
        go_modules(lines(text)).contains(key),
        0 <= n < 4,
        disk.stat(module_paths(env, key)[n]) != Stat::Absent,
    ensures
        claims_path(
            project_claims(p, env, disk),
            p,
            module_paths(env, key)[n],
            EntryKind::PackageCache,
            EvidenceTier::Exact,
            Some("go"@),
        ),
{
    lemma_rows(env.agent);
    let row = go_lookup_table()[0];
    assert(lookup_table(env.agent)[12] == row);
    let all = module_paths(env, key);
    let at = all[n];
    let pick = |q: Seq<Seq<char>>|
        if disk.present(q) {
            Some(q)
        } else {
            None
        };
    let k = lemma_picked(all, pick, n);
    let t = targets(row, key, None, p, env, disk);
    assert(existing(disk, all) == all.filter_map(pick));
    assert(t[k] == (at, None::<FindingId>));
    law_every_key_of_the_roots_manifest_is_followed(
        row,
        "go.sum",
        8388608,
        Parse::GoSum,
        p,
        env,
        disk,
        text,
        key,
        at,
        None,
    );
    lemma_claimed_by_row(p, env, disk, 12, at);
}

/// A formula that the project's Brewfile asks for is claimed where Homebrew has it.
pub proof fn law_a_formula_of_the_brewfile_is_claimed(
    p: ProjectView,
    env: EnvView,
    disk: DiskView,
    text: Seq<char>,
    name: Seq<char>,
    f: int,
)
    requires
        disk.head(child(p.root, "Brewfile"@), 262144) == Some(text),
        lines(text).filter_map(brew_line()).contains((BrewEntryKind::Formula, name)),
        0 <= f < env.findings(ScannerId::Brew).len(),
        env.findings(ScannerId::Brew)[f].kind == FindingKind::BrewFormula,
        text_field(env.findings(ScannerId::Brew)[f].meta, "name"@) == Some(name),
        env.findings(ScannerId::Brew)[f].path is Some,
        forall|g: int|
            0 <= g < f ==> !((#[trigger] env.findings(ScannerId::Brew)[g]).kind
                == FindingKind::BrewFormula && text_field(
                env.findings(ScannerId::Brew)[g].meta,
                "name"@,
            ) == Some(name)),
    ensures
        claims_path(
            project_claims(p, env, disk),
            p,
            env.findings(ScannerId::Brew)[f].path->0,
            EntryKind::Toolchain,
            EvidenceTier::Exact,
            None,
        ),
{
    lemma_rows(env.agent);
    let row = brew_lookup_table()[0];
    assert(lookup_table(env.agent)[19] == row);
    let fs = env.findings(ScannerId::Brew);
    let key = bare_key(name);
    let entries = lines(text).filter_map(brew_line());
    let e = choose|e: int|
        0 <= e < entries.len() && entries[e] == (BrewEntryKind::Formula, name);
    let k = lemma_picked(entries, brew_name(BrewEntryKind::Formula), e);
    assert(manifest_keys(Parse::BrewFormulae, text)[k] == key);
    let keys = seq!["name"];
    let pick = finding_for(FindingKind::BrewFormula, keys, name);
    assert(has_key(fs[f].meta, keys, name)) by {
        assert(text_field(fs[f].meta, keys[0]@) == Some(name));
    }
    lemma_first_is(fs, pick, f);
    let at = fs[f].path->0;
    let t = targets(row, key, None, p, env, disk);
    assert(t[0] == (at, Some(fs[f].id)));
    law_every_key_of_the_roots_manifest_is_followed(
        row,
        "Brewfile",
        262144,
        Parse::BrewFormulae,
        p,
        env,
        disk,
        text,
        key,
        at,
        Some(fs[f].id),
    );
    lemma_claimed_by_row(p, env, disk, 19, at);
}

proof fn lemma_first_is<A, B>(s: Seq<A>, f: spec_fn(A) -> Option<B>, i: int)
    requires
        0 <= i < s.len(),
        f(s[i]) is Some,
        forall|j: int| 0 <= j < i ==> f(#[trigger] s[j]) is None,
    ensures
        first_some(s, f) == f(s[i]),
    decreases s.len(),
{
    if i > 0 {
        assert(f(s[0]) is None);
        let t = s.skip(1);
        assert(t[i - 1] == s[i]);
        assert forall|j: int| 0 <= j < i - 1 implies f(#[trigger] t[j]) is None by {
            assert(t[j] == s[j + 1]);
        }
        lemma_first_is(t, f, i - 1);
    }
}

/// A package that the project's `yarn.lock` resolves, and whose archive is in Yarn's cache, is claimed
/// by the project.
#[verifier::rlimit(40)]
pub proof fn law_a_yarn_package_is_claimed(
    p: ProjectView,
    env: EnvView,
    disk: DiskView,
    text: Seq<char>,
    name: Seq<char>,
    version: Seq<char>,
    e: int,
)
    requires
        disk.head(child(p.root, "yarn.lock"@), 8388608) == Some(text),
        lines(text).filter_map(yarn_line()).contains((name, version)),
        ({
            let cache = env.home + seq!["Library"@, "Caches"@, "Yarn"@, "berry"@, "cache"@];
            &&& disk.list(cache) is Some
            &&& 0 <= e < disk.list(cache)->0.len()
            &&& (swapped(name, '/', '-') + "-npm-"@ + version + "-"@).is_prefix_of(
                disk.list(cache)->0[e].0,
            )
        }),
    ensures
        ({
            let cache = env.home + seq!["Library"@, "Caches"@, "Yarn"@, "berry"@, "cache"@];
            claims_path(
                project_claims(p, env, disk),
                p,
                child(cache, disk.list(cache)->0[e].0),
                EntryKind::PackageCache,
                EvidenceTier::Exact,
                Some("node"@),
            )
        }),
{
    lemma_rows(env.agent);
    let row = node_lookup_table()[2];
    assert(lookup_table(env.agent)[2] == row);
    let key = KeyView { name, version, extra: None };
    let pairs = lines(text).filter_map(yarn_line());
    let k = choose|k: int| 0 <= k < pairs.len() && pairs[k] == (name, version);
    assert(manifest_keys(Parse::YarnBerry, text)[k] == key);
    let tokens = key_tokens(key);
    lemma_tokens(key);
    let names = seq!["Library"@, "Caches"@, "Yarn"@, "berry"@, "cache"@];
    let cache = env.home + names;
    let dir = "~/Library/Caches/Yarn/berry/cache";
    assert(globbed(disk, filled(dir@, tokens), env.home).contains(cache)) by {
        reveal_strlit("~/Library/Caches/Yarn/berry/cache");
        reveal_strlit("Library");
        reveal_strlit("Caches");
        reveal_strlit("Yarn");
        reveal_strlit("berry");
        reveal_strlit("cache");
        reveal_strlit("~/");
        law_templates_are_filled(dir@, "name"@, seq![], tokens, 0);
        assert forall|n: int| 0 <= n < names.len() implies literal(#[trigger] names[n])
            && single_name(names[n]) by {}
        let n1 = names.skip(1);
        let n2 = n1.skip(1);
        let n3 = n2.skip(1);
        let n4 = n3.skip(1);
        assert(spelled(n4) == "cache"@);
        assert(spelled(n3) == "berry"@ + seq!['/'] + spelled(n4));
        assert(spelled(n2) == "Yarn"@ + seq!['/'] + spelled(n3));
        assert(spelled(n1) == "Caches"@ + seq!['/'] + spelled(n2));
        assert(spelled(names) == "Library"@ + seq!['/'] + spelled(n1));
        assert(dir@ =~= "~/"@ + spelled(names));
        law_plain_templates_lead_home(disk, env.home, names);
    }
    let prefix = "{name-flat}-npm-{version}-"@;
    assert(filled(prefix, tokens) == swapped(name, '/', '-') + "-npm-"@ + version + "-"@) by {
        reveal_strlit("{name-flat}-npm-{version}-");
        reveal_strlit("name-flat");
        reveal_strlit("version");
        reveal_strlit("-npm-");
        reveal_strlit("-");
        let tail = "-"@;
        let mid = "-npm-"@;
        let second = mid + (seq!['{'] + "version"@ + seq!['}'] + tail);
        assert(prefix =~= Seq::<char>::empty() + (seq!['{'] + "name-flat"@ + seq!['}'] + second));
        assert(free_of(mid, '{') && free_of(tail, '{'));
        law_templates_are_filled(seq![], "name-flat"@, second, tokens, 4);
        law_templates_are_filled(mid, "version"@, tail, tokens, 1);
        law_templates_are_filled(tail, "version"@, seq![], tokens, 1);
        assert(filled(prefix, tokens) =~= swapped(name, '/', '-') + "-npm-"@ + version + "-"@);
    }
    let dirs = seq!["~/Library/Caches/Yarn/berry/cache"];
    law_prefixes_lead_to_every_match(disk, env.home, dirs, prefix, tokens, name, 0, cache, e);
    let at = child(cache, disk.list(cache)->0[e].0);
    let m = matched(disk, env.home, dirs, prefix, Select::All, tokens, NONE, name);
    let i = choose|i: int| 0 <= i < m.len() && m[i] == at;
    let t = targets(row, key, None, p, env, disk);
    assert(t[i] == (at, None::<FindingId>));
    law_every_key_of_the_roots_manifest_is_followed(
        row,
        "yarn.lock",
        8388608,
        Parse::YarnBerry,
        p,
        env,
        disk,
        text,
        key,
        at,
        None,
    );
    lemma_claimed_by_row(p, env, disk, 2, at);
}

/// A package that the project's `package-lock.json` locks is claimed where npm's cache keeps it.
pub proof fn law_an_npm_package_is_claimed(
    p: ProjectView,
    env: EnvView,
    disk: DiskView,
    text: Seq<char>,
    name: Seq<char>,
    version: Seq<char>,
    n: int,
)
    requires
        disk.head(child(p.root, "package-lock.json"@), 8388608) == Some(text),
        json_document(text) is Some,
        locked_packages(json_document(text)->0).contains((name, version)),
        0 <= n < npm_paths(disk, env, KeyView { name, version, extra: None }).len(),
    ensures
        claims_path(
            project_claims(p, env, disk),
            p,
            npm_paths(disk, env, KeyView { name, version, extra: None })[n],
            EntryKind::PackageCache,
            EvidenceTier::Exact,
            Some("node"@),
        ),
{
    lemma_rows(env.agent);
    let row = node_lookup_table()[1];
    assert(lookup_table(env.agent)[1] == row);
    let key = KeyView { name, version, extra: None };
    let pairs = locked_packages(json_document(text)->0);
    let k = choose|k: int| 0 <= k < pairs.len() && pairs[k] == (name, version);
    assert(manifest_keys(Parse::PackageLock, text)[k] == key);
    let at = npm_paths(disk, env, key)[n];
    let t = targets(row, key, None, p, env, disk);
    assert(t[n] == (at, None::<FindingId>));
    law_every_key_of_the_roots_manifest_is_followed(
        row,
        "package-lock.json",
        8388608,
        Parse::PackageLock,
        p,
        env,
        disk,
        text,
        key,
        at,
        None,
    );
    lemma_claimed_by_row(p, env, disk, 1, at);
}

} // verus!
