//! The evaluation of the rules that lead from a project to paths, and of those that belong to a
//! whole ecosystem.

use vstd::prelude::*;

use crate::attribution::apps::linkers::opt_list;
use crate::attribution::apps::owners::{text_items, texts_of};
use crate::attribution::model::{
    plain_claim, put, put_all, Claim, ClaimView, EnvView, EvidenceTier, ResolveEnv, BASELINE_OWNER,
};
use crate::attribution::paths::{node_at, node_in};
use crate::attribution::projects::{
    artifact_dir, is_artifact_dir, put_path, put_paths, put_text, Project, ProjectView,
};
use crate::disk::{Disk, DiskView, NodeKind};
use crate::doc::{
    field, json_document, list_of, parse_json, text_field, text_of, toml_document, Doc, DocView,
};
use crate::fspath::{child, parent, path_lt, path_of, path_text, under, FilePath};
use crate::order::{chars_lt, str_before};
use crate::scan::{DirNode, DirView, Finding, FindingId, FindingKind, FindingView};
use crate::seqs::{
    first_some, flat, lemma_filter_map_start, lemma_first_some_step, lemma_flat_start,
    lemma_flat_step,
};
use crate::text::{
    cat2, cat3, chars_of, lines, lower_text, lowered, same, starts, starts_with, str_starts,
    string_of, strip_prefix, swap_char, swapped, without_prefix,
};

use super::derive::{
    cargo_target_dir, claude_cli_cache, claude_state_label, cli_cache, device_label, end_name,
    end_of, existing, go_module_cache, jetbrains_dirs, jetbrains_paths, keep_existing, module_paths,
    name_caches, npm_cacache, npm_paths, project_name_cache, simulator_device_label, NpmMemo,
};
use super::parsers::{
    bare_line, brew_line, brewfile, bun_lock, bun_packages, cargo_config_target_dir,
    cargo_lock_git, cargo_lock_registry, cargo_target_dirs_in_package_json_scripts, commented_json,
    config_target_dir, default_toolchain, extract_cargo_target_dir, first_bare_line,
    first_key_value, git_key, go_modules, go_sum, identity, line_value, lock_packages, lock_start,
    locked_packages, node_pin, normalise_node_pin, package_lock, package_resolved, pins_in, put_key,
    registry_key, scripts_dirs, swift_repo, swiftpm_repo_basename, target_dir, target_dirs,
    trimmed_pin, yarn_berry, yarn_line, BrewEntryKind, Key, KeyView, PackageRef, ResolvedPin,
};
use super::rules::{
    baseline_rows, baseline_table, lookup_rows, lookup_table, Baseline, BaselineView, Derive,
    FileValue, Find, FindView, Flags, Label, LabelFn, Lookup, LookupView, Normalise, Parse,
    PathFrom, PinSource, PinSourceView, ProjectField, Select, Source, Target, TargetView, Trigger,
    TriggerView, CASE_INSENSITIVE, CLONE_OF_STORE, MANIFEST_CAP, V_PREFIX,
};
use super::templates::{
    filled, glob_expand, glob_match, globbed, matches_glob, substitute,
};
use super::versions::{newest, newest_matching_version, versions_of};

verus! {

broadcast use crate::disk::group_asks;

/// The tokens of a key.
pub open spec fn key_tokens(key: KeyView) -> Seq<(Seq<char>, Seq<char>)> {
    seq![
        ("name"@, key.name),
        ("version"@, key.version),
        ("key"@, key.name),
        (
            "basename"@,
            match key.extra {
                Some(e) => e,
                None => seq![],
            },
        ),
        ("name-flat"@, swapped(key.name, '/', '-')),
    ]
}

/// The tokens of a key.
pub fn target_tokens(key: &Key) -> (r: Vec<(&'static str, String)>)
    ensures
        r.deep_view() == key_tokens(key@),
{
    let mut out: Vec<(&'static str, String)> = Vec::new();
    let base = match &key.extra {
        Some(e) => e.clone(),
        None => String::new(),
    };
    let c = chars_of(key.name.as_str());
    let flat_name = string_of(swap_char(c.as_slice(), '/', '-').as_slice());
    out.push(("name", key.name.clone()));
    out.push(("version", key.version.clone()));
    out.push(("key", key.name.clone()));
    out.push(("basename", base));
    out.push(("name-flat", flat_name));
    assert(key@.extra is None ==> base@ =~= seq![]);
    assert(out.deep_view() =~= key_tokens(key@));
    out
}

/// A manifest's path from the project's root.
pub open spec fn rel_file(file: Seq<char>, rel: Seq<char>) -> Seq<char> {
    if rel.len() == 0 {
        file
    } else {
        rel + "/"@ + file
    }
}

/// The tokens of a key and of the path that it has led to.
pub open spec fn path_tokens(
    key: KeyView,
    file: Seq<char>,
    rel: Seq<char>,
    path: Seq<Seq<char>>,
) -> Seq<(Seq<char>, Seq<char>)> {
    seq![
        ("basename"@, end_name(path)),
        ("file"@, file),
        ("rel"@, rel),
        ("relfile"@, rel_file(file, rel)),
    ] + key_tokens(key)
}

/// The tokens of a key and of the path that it has led to: the path's own name under `basename`,
/// and the manifest's under `file`, `rel` and `relfile`.
pub fn label_tokens(key: &Key, file: &str, rel: &str, path: &FilePath) -> (r: Vec<
    (&'static str, String),
>)
    ensures
        r.deep_view() == path_tokens(key@, file@, rel@, path@),
{
    let mut out: Vec<(&'static str, String)> = Vec::new();
    let c = chars_of(rel);
    let relfile = if c.len() == 0 {
        file.to_owned()
    } else {
        cat3(rel, "/", file)
    };
    out.push(("basename", end_of(path)));
    out.push(("file", file.to_owned()));
    out.push(("rel", rel.to_owned()));
    out.push(("relfile", relfile));
    let ghost first = out.deep_view();
    assert(first =~= seq![
        ("basename"@, end_name(path@)),
        ("file"@, file@),
        ("rel"@, rel@),
        ("relfile"@, rel_file(file@, rel@)),
    ]);
    let mut more = target_tokens(key);
    let ghost m = more.deep_view();
    out.append(&mut more);
    assert(out.deep_view() =~= first + m);
    out
}

/// Keys with these names and versions.
pub open spec fn versioned_keys(pairs: Seq<(Seq<char>, Seq<char>)>) -> Seq<KeyView> {
    Seq::new(
        pairs.len(),
        |i: int| KeyView { name: pairs[i].0, version: pairs[i].1, extra: None },
    )
}

/// A key with nothing but a name.
pub open spec fn bare_key(name: Seq<char>) -> KeyView {
    KeyView { name, version: seq![], extra: None }
}

/// Keys with nothing but these names.
pub open spec fn bare_keys(names: Seq<Seq<char>>) -> Seq<KeyView> {
    Seq::new(names.len(), |i: int| bare_key(names[i]))
}

/// The key of a dependency, with the name of its repository's cache.
pub open spec fn pin_key() -> spec_fn((Seq<char>, Seq<char>)) -> Option<KeyView> {
    |pin: (Seq<char>, Seq<char>)|
        match swift_repo(pin.1) {
            Some(b) => Some(KeyView { name: pin.0, version: seq![], extra: Some(b) }),
            None => None,
        }
}

/// What a Brewfile asks for of one kind.
pub open spec fn brew_name(kind: BrewEntryKind) -> spec_fn((BrewEntryKind, Seq<char>)) -> Option<
    KeyView,
> {
    |e: (BrewEntryKind, Seq<char>)|
        if e.0 == kind {
            Some(bare_key(e.1))
        } else {
            None
        }
}

/// The keys that a manifest lists.
pub open spec fn manifest_keys(parse: Parse, text: Seq<char>) -> Seq<KeyView> {
    match parse {
        Parse::PackageLock => match json_document(text) {
            Some(d) => versioned_keys(locked_packages(d)),
            None => seq![],
        },
        Parse::YarnBerry => versioned_keys(lines(text).filter_map(yarn_line())),
        Parse::BunLock => match commented_json(text) {
            Some(d) => versioned_keys(bun_packages(d)),
            None => seq![],
        },
        Parse::CargoRegistry => lock_packages(lines(text), lock_start(false)).filter_map(
            registry_key(),
        ),
        Parse::CargoGit => lock_packages(lines(text), lock_start(false)).filter_map(git_key()),
        Parse::CargoConfig => match toml_document(text) {
            Some(d) => bare_keys(opt_list(config_target_dir(d))),
            None => seq![],
        },
        Parse::CargoScripts => match json_document(text) {
            Some(d) => bare_keys(scripts_dirs(d)),
            None => seq![],
        },
        Parse::CargoShell => bare_keys(target_dirs(text)),
        Parse::GoSum => go_modules(lines(text)),
        Parse::PackageResolved => match json_document(text) {
            Some(d) => pins_in(d).filter_map(pin_key()),
            None => seq![],
        },
        Parse::BrewFormulae => lines(text).filter_map(brew_line()).filter_map(
            brew_name(BrewEntryKind::Formula),
        ),
        Parse::BrewCasks => lines(text).filter_map(brew_line()).filter_map(
            brew_name(BrewEntryKind::Cask),
        ),
    }
}

fn keys_of_pairs(pairs: Vec<(String, String)>) -> (r: Vec<Key>)
    ensures
        r.deep_view() == versioned_keys(pairs.deep_view()),
{
    let ghost want = versioned_keys(pairs.deep_view());
    let mut out: Vec<Key> = Vec::new();
    let mut i: usize = 0;
    while i < pairs.len()
        invariant
            i <= pairs.len(),
            want == versioned_keys(pairs.deep_view()),
            out.deep_view() =~= want.take(i as int),
        decreases pairs.len() - i,
    {
        assert(pairs.deep_view()[i as int] == (pairs@[i as int].0@, pairs@[i as int].1@));
        put_key(
            &mut out,
            Key { name: pairs[i].0.clone(), version: pairs[i].1.clone(), extra: None },
        );
        i = i + 1;
    }
    assert(want.take(i as int) =~= want);
    out
}

fn keys_of_refs(refs: Vec<PackageRef>) -> (r: Vec<Key>)
    ensures
        r.deep_view() == versioned_keys(refs.deep_view()),
{
    let ghost want = versioned_keys(refs.deep_view());
    let mut out: Vec<Key> = Vec::new();
    let mut i: usize = 0;
    while i < refs.len()
        invariant
            i <= refs.len(),
            want == versioned_keys(refs.deep_view()),
            out.deep_view() =~= want.take(i as int),
        decreases refs.len() - i,
    {
        assert(refs.deep_view()[i as int] == refs@[i as int].deep_view());
        put_key(
            &mut out,
            Key { name: refs[i].name.clone(), version: refs[i].version.clone(), extra: None },
        );
        i = i + 1;
    }
    assert(want.take(i as int) =~= want);
    out
}

fn keys_of_names(names: &Vec<String>) -> (r: Vec<Key>)
    ensures
        r.deep_view() == bare_keys(names.deep_view()),
{
    let ghost want = bare_keys(names.deep_view());
    let mut out: Vec<Key> = Vec::new();
    let mut i: usize = 0;
    while i < names.len()
        invariant
            i <= names.len(),
            want == bare_keys(names.deep_view()),
            out.deep_view() =~= want.take(i as int),
        decreases names.len() - i,
    {
        assert(names.deep_view()[i as int] == names@[i as int]@);
        let k = Key { name: names[i].clone(), version: String::new(), extra: None };
        assert(k@ =~= bare_key(names@[i as int]@));
        put_key(&mut out, k);
        i = i + 1;
    }
    assert(want.take(i as int) =~= want);
    out
}

fn keys_of_pins(pins: Vec<ResolvedPin>) -> (r: Vec<Key>)
    ensures
        r.deep_view() == pins.deep_view().filter_map(pin_key()),
{
    let ghost all = pins.deep_view();
    let mut out: Vec<Key> = Vec::new();
    let mut i: usize = 0;
    proof {
        lemma_filter_map_start(all, pin_key());
        assert(out.deep_view() =~= all.take(0).filter_map(pin_key()));
    }
    while i < pins.len()
        invariant
            i <= pins.len(),
            all == pins.deep_view(),
            out.deep_view() == all.take(i as int).filter_map(pin_key()),
        decreases pins.len() - i,
    {
        proof {
            assert(all[i as int] == pins@[i as int].deep_view());
            all.lemma_filter_map_take_succ(pin_key(), i as int);
        }
        if let Some(b) = swiftpm_repo_basename(pins[i].location.as_str()) {
            let k = Key { name: pins[i].identity.clone(), version: String::new(), extra: Some(b) };
            assert(k@.version =~= seq![]);
            put_key(&mut out, k);
        }
        assert(out.deep_view() =~= all.take(i + 1).filter_map(pin_key()));
        i = i + 1;
    }
    assert(all.take(i as int) =~= all);
    out
}

fn keys_of_brew(entries: Vec<(BrewEntryKind, String)>, kind: BrewEntryKind) -> (r: Vec<Key>)
    ensures
        r.deep_view() == entries.deep_view().filter_map(brew_name(kind)),
{
    let ghost all = entries.deep_view();
    let ghost pick = brew_name(kind);
    let mut out: Vec<Key> = Vec::new();
    let mut i: usize = 0;
    proof {
        lemma_filter_map_start(all, pick);
        assert(out.deep_view() =~= all.take(0).filter_map(pick));
    }
    while i < entries.len()
        invariant
            i <= entries.len(),
            all == entries.deep_view(),
            pick == brew_name(kind),
            out.deep_view() == all.take(i as int).filter_map(pick),
        decreases entries.len() - i,
    {
        proof {
            assert(all[i as int] == (entries@[i as int].0, entries@[i as int].1@));
            all.lemma_filter_map_take_succ(pick, i as int);
        }
        if entries[i].0 == kind {
            let k = Key { name: entries[i].1.clone(), version: String::new(), extra: None };
            assert(k@ =~= bare_key(entries@[i as int].1@));
            put_key(&mut out, k);
        }
        assert(out.deep_view() =~= all.take(i + 1).filter_map(pick));
        i = i + 1;
    }
    assert(all.take(i as int) =~= all);
    out
}

/// The keys that a manifest lists.
pub fn parse_keys(parse: Parse, text: &str) -> (r: Vec<Key>)
    ensures
        r.deep_view() == manifest_keys(parse, text@),
{
    match parse {
        Parse::PackageLock => {
            let r = keys_of_refs(package_lock(text));
            assert(r.deep_view() =~= manifest_keys(parse, text@));
            r
        },
        Parse::YarnBerry => keys_of_pairs(yarn_berry(text)),
        Parse::BunLock => {
            let r = keys_of_pairs(bun_lock(text));
            assert(r.deep_view() =~= manifest_keys(parse, text@));
            r
        },
        Parse::CargoRegistry => cargo_lock_registry(text),
        Parse::CargoGit => cargo_lock_git(text),
        Parse::CargoConfig => {
            let mut dirs: Vec<String> = Vec::new();
            if let Some(d) = cargo_config_target_dir(text) {
                put_text(&mut dirs, d);
            }
            let r = keys_of_names(&dirs);
            assert(r.deep_view() =~= manifest_keys(parse, text@));
            r
        },
        Parse::CargoScripts => {
            let r = keys_of_names(&cargo_target_dirs_in_package_json_scripts(text));
            assert(r.deep_view() =~= manifest_keys(parse, text@));
            r
        },
        Parse::CargoShell => keys_of_names(&extract_cargo_target_dir(text)),
        Parse::GoSum => go_sum(text),
        Parse::PackageResolved => {
            let pins = package_resolved(text);
            proof {
                if json_document(text@) is None {
                    assert(pins.deep_view() =~= seq![]);
                    lemma_filter_map_start(pins.deep_view(), pin_key());
                    assert(pins.deep_view().take(0) =~= pins.deep_view());
                }
            }
            keys_of_pins(pins)
        },
        Parse::BrewFormulae => keys_of_brew(brewfile(text), BrewEntryKind::Formula),
        Parse::BrewCasks => keys_of_brew(brewfile(text), BrewEntryKind::Cask),
    }
}

/// A pin in the form in which versions are named.
pub open spec fn normalised(n: Normalise, raw: Seq<char>) -> Option<Seq<char>> {
    match n {
        Normalise::NodePin => node_pin(raw),
        Normalise::Identity => trimmed_pin(raw),
    }
}

fn normalise_pin(n: Normalise, raw: &str) -> (r: Option<String>)
    ensures
        r.deep_view() == normalised(n, raw@),
{
    match n {
        Normalise::NodePin => normalise_node_pin(raw),
        Normalise::Identity => identity(raw),
    }
}

/// What a path of keys leads to in a document.
pub open spec fn at_keys(d: DocView, keys: Seq<&'static str>) -> Option<DocView>
    decreases keys.len(),
{
    if keys.len() == 0 {
        Some(d)
    } else {
        match field(d, keys[0]@) {
            Some(x) => at_keys(x, keys.skip(1)),
            None => None,
        }
    }
}

/// The text that a path of keys leads to in a parsed document.
pub fn text_at_keys(d: &Doc, keys: &Vec<&'static str>) -> (r: Option<String>)
    ensures
        r.deep_view() == text_of(at_keys(d@, keys@)),
{
    let mut cur: &Doc = d;
    let mut i: usize = 0;
    assert(keys@.skip(0) =~= keys@);
    while i < keys.len()
        invariant
            i <= keys.len(),
            at_keys(d@, keys@) == at_keys(cur@, keys@.skip(i as int)),
        decreases keys.len() - i,
    {
        assert(keys@.skip(i as int).skip(1) =~= keys@.skip(i + 1));
        match cur.get(keys[i]) {
            Some(x) => {
                cur = x;
            },
            None => {
                return None;
            },
        }
        i = i + 1;
    }
    match cur.as_str() {
        Some(s) => Some(s.to_owned()),
        None => None,
    }
}

/// The pin that a source gives, as it stands there.
pub open spec fn raw_pin(source: PinSourceView, disk: DiskView, root: Seq<Seq<char>>) -> Option<
    Seq<char>,
> {
    match source {
        PinSourceView::Line(file) => match disk.head(child(root, file@), MANIFEST_CAP) {
            Some(t) => first_some(lines(t), bare_line()),
            None => None,
        },
        PinSourceView::TomlKey(file, key) => match disk.head(child(root, file@), MANIFEST_CAP) {
            Some(t) => first_some(lines(t), line_value(key@)),
            None => None,
        },
        PinSourceView::JsonPath(file, keys) => match disk.head(child(root, file@), MANIFEST_CAP) {
            Some(t) => match json_document(t) {
                Some(d) => text_of(at_keys(d, keys)),
                None => None,
            },
            None => None,
        },
    }
}

/// The pin that a source gives, in form.
pub open spec fn source_pin(n: Normalise, disk: DiskView, root: Seq<Seq<char>>) -> spec_fn(
    PinSourceView,
) -> Option<Seq<char>> {
    |source: PinSourceView|
        match raw_pin(source, disk, root) {
            Some(raw) => normalised(n, raw),
            None => None,
        }
}

fn read_pin(source: &PinSource, root: &FilePath, env: &ResolveEnv, disk: &mut Disk) -> (r: Option<
    String,
>)
    requires
        old(disk).wf(),
    ensures
        final(disk).asked(*old(disk)),
        final(disk).holds() ==> r.deep_view() == raw_pin(source@, old(disk)@, root@),
{
    match source {
        PinSource::Line(file) => match env.read_head(disk, &root.child(*file), MANIFEST_CAP) {
            Some(t) => first_bare_line(t.as_str()),
            None => None,
        },
        PinSource::TomlKey(file, key) => match env.read_head(
            disk,
            &root.child(*file),
            MANIFEST_CAP,
        ) {
            Some(t) => first_key_value(t.as_str(), *key),
            None => None,
        },
        PinSource::JsonPath(file, keys) => match env.read_head(
            disk,
            &root.child(*file),
            MANIFEST_CAP,
        ) {
            Some(t) => match parse_json(t.as_str()) {
                Some(d) => text_at_keys(&d, keys),
                None => None,
            },
            None => None,
        },
    }
}

/// The first pin that a source gives and that can be brought into form.
pub fn resolve_pin(
    sources: &Vec<PinSource>,
    normalise: Normalise,
    project: &Project,
    env: &ResolveEnv,
    disk: &mut Disk,
) -> (r: Option<String>)
    requires
        old(disk).wf(),
    ensures
        final(disk).asked(*old(disk)),
        final(disk).holds() ==> r.deep_view() == first_some(
            sources.deep_view(),
            source_pin(normalise, old(disk)@, project@.root),
        ),
{
    let ghost facts = disk@;
    let ghost all = sources.deep_view();
    let ghost f = source_pin(normalise, facts, project@.root);
    let mut i: usize = 0;
    assert(all.skip(0) =~= all);
    while i < sources.len()
        invariant
            i <= sources.len(),
            all == sources.deep_view(),
            facts == old(disk)@,
            f == source_pin(normalise, facts, project@.root),
            disk.asked(*old(disk)),
            disk.holds() ==> first_some(all, f) == first_some(all.skip(i as int), f),
        decreases sources.len() - i,
    {
        proof {
            assert(all[i as int] == sources@[i as int]@);
            lemma_first_some_step(all, f, i as int);
        }
        if let Some(raw) = read_pin(&sources[i], &project.root, env, disk) {
            let pin = normalise_pin(normalise, raw.as_str());
            if pin.is_some() {
                return pin;
            }
        }
        i = i + 1;
    }
    None
}

/// The paths that a template stands for, with the tokens put in.
pub open spec fn template_paths(
    disk: DiskView,
    home: Seq<Seq<char>>,
    tokens: Seq<(Seq<char>, Seq<char>)>,
) -> spec_fn(&'static str) -> Seq<Seq<Seq<char>>> {
    |t: &'static str| globbed(disk, filled(t@, tokens), home)
}

/// The paths that templates stand for, with the tokens put in.
pub fn expand_templates(
    templates: &Vec<&'static str>,
    tokens: &Vec<(&'static str, String)>,
    home: &FilePath,
    disk: &mut Disk,
) -> (r: Vec<FilePath>)
    requires
        old(disk).wf(),
    ensures
        final(disk).asked(*old(disk)),
        final(disk).holds() ==> r.deep_view() == flat(
            templates@,
            template_paths(old(disk)@, home@, tokens.deep_view()),
        ),
{
    let ghost facts = disk@;
    let ghost f = template_paths(facts, home@, tokens.deep_view());
    let mut out: Vec<FilePath> = Vec::new();
    let mut i: usize = 0;
    proof {
        lemma_flat_start(templates@, f);
        assert(out.deep_view() =~= flat(templates@.take(0), f));
    }
    while i < templates.len()
        invariant
            i <= templates.len(),
            facts == old(disk)@,
            f == template_paths(facts, home@, tokens.deep_view()),
            disk.asked(*old(disk)),
            disk.holds() ==> out.deep_view() == flat(templates@.take(i as int), f),
        decreases templates.len() - i,
    {
        proof {
            lemma_flat_step(templates@, f, i as int);
        }
        let t = substitute(templates[i], tokens);
        let more = glob_expand(t.as_str(), home, disk);
        put_paths(&mut out, more);
        i = i + 1;
    }
    assert(templates@.take(i as int) =~= templates@);
    out
}

/// The name under which an entry is looked at.
pub open spec fn match_name(flags: Flags, name: Seq<char>) -> Seq<char> {
    if flags & V_PREFIX != 0 && !starts(name, "v"@) {
        "v"@ + name
    } else {
        name
    }
}

/// Whether a name begins with a prefix.
pub open spec fn has_prefix(flags: Flags, name: Seq<char>, prefix: Seq<char>) -> bool {
    if flags & CASE_INSENSITIVE != 0 {
        starts(lowered(name), lowered(prefix))
    } else {
        starts(name, prefix)
    }
}

/// An entry whose name begins with the prefix: the name under which it is looked at, and its path.
pub open spec fn match_entry(flags: Flags, prefix: Seq<char>, dir: Seq<Seq<char>>) -> spec_fn(
    (Seq<char>, NodeKind),
) -> Option<(Seq<char>, Seq<Seq<char>>)> {
    |e: (Seq<char>, NodeKind)|
        if has_prefix(flags, match_name(flags, e.0), prefix) {
            Some((match_name(flags, e.0), child(dir, e.0)))
        } else {
            None
        }
}

/// The entries of a directory whose names begin with the prefix.
pub open spec fn matches_in(disk: DiskView, flags: Flags, prefix: Seq<char>) -> spec_fn(
    Seq<Seq<char>>,
) -> Seq<(Seq<char>, Seq<Seq<char>>)> {
    |dir: Seq<Seq<char>>|
        match disk.list(dir) {
            Some(entries) => entries.filter_map(match_entry(flags, prefix, dir)),
            None => seq![],
        }
}

/// The path of the first match with this name.
pub open spec fn path_named(matches: Seq<(Seq<char>, Seq<Seq<char>>)>, name: Seq<char>) -> Option<
    Seq<Seq<char>>,
> {
    first_some(
        matches,
        |m: (Seq<char>, Seq<Seq<char>>)|
            if m.0 == name {
                Some(m.1)
            } else {
                None
            },
    )
}

/// The first of the names, in their order.
pub open spec fn least_name(matches: Seq<(Seq<char>, Seq<Seq<char>>)>) -> Option<Seq<char>>
    decreases matches.len(),
{
    if matches.len() == 0 {
        None
    } else {
        match least_name(matches.drop_last()) {
            Some(m) => if chars_lt(matches.last().0, m) {
                Some(matches.last().0)
            } else {
                Some(m)
            },
            None => Some(matches.last().0),
        }
    }
}

/// The names without the prefix, as far as they begin with it.
pub open spec fn tails(matches: Seq<(Seq<char>, Seq<Seq<char>>)>, prefix: Seq<char>) -> Seq<
    Seq<char>,
> {
    matches.filter_map(|m: (Seq<char>, Seq<Seq<char>>)| without_prefix(m.0, prefix))
}

/// At most one path, as a sequence.
pub open spec fn opt_path(p: Option<Seq<Seq<char>>>) -> Seq<Seq<Seq<char>>> {
    match p {
        Some(x) => seq![x],
        None => seq![],
    }
}

/// Those of the matches that count.
pub open spec fn selected(
    select: Select,
    matches: Seq<(Seq<char>, Seq<Seq<char>>)>,
    prefix: Seq<char>,
    pin: Seq<char>,
) -> Seq<Seq<Seq<char>>> {
    match select {
        Select::All => Seq::new(matches.len(), |i: int| matches[i].1),
        Select::First => opt_path(
            match least_name(matches) {
                Some(n) => path_named(matches, n),
                None => None,
            },
        ),
        Select::MaxSemver => opt_path(
            match newest(pin, tails(matches, prefix), versions_of(tails(matches, prefix))) {
                Some(tail) => path_named(matches, prefix + tail),
                None => None,
            },
        ),
    }
}

/// The entries that a row leads to.
pub open spec fn matched(
    disk: DiskView,
    home: Seq<Seq<char>>,
    dirs: Seq<&'static str>,
    prefix: Seq<char>,
    select: Select,
    tokens: Seq<(Seq<char>, Seq<char>)>,
    flags: Flags,
    pin: Seq<char>,
) -> Seq<Seq<Seq<char>>> {
    let p = filled(prefix, tokens);
    let matches = flat(
        flat(dirs, template_paths(disk, home, tokens)),
        matches_in(disk, flags, p),
    );
    selected(select, matches, p, pin)
}

fn put_matches(
    disk: &mut Disk,
    dir: &FilePath,
    prefix: &str,
    flags: Flags,
    out: &mut Vec<(String, FilePath)>,
)
    requires
        old(disk).wf(),
    ensures
        final(disk).asked(*old(disk)),
        final(disk).holds()
            ==> final(out).deep_view() == old(out).deep_view() + matches_in(old(disk)@, flags, prefix@)(
            dir@,
        ),
{
    let ghost was = out.deep_view();
    match disk.list(dir) {
        Some(entries) => {
            let ghost all = entries.deep_view();
            let ghost pick = match_entry(flags, prefix@, dir@);
            let mut i: usize = 0;
            proof {
                lemma_filter_map_start(all, pick);
                assert(out.deep_view() =~= was + all.take(0).filter_map(pick));
            }
            while i < entries.len()
                invariant
                    i <= entries.len(),
                    all == entries.deep_view(),
                    pick == match_entry(flags, prefix@, dir@),
                    disk.holds() ==> out.deep_view() == was + all.take(i as int).filter_map(pick),
                decreases entries.len() - i,
            {
                proof {
                    assert(all[i as int] == entries@[i as int].deep_view());
                    all.lemma_filter_map_take_succ(pick, i as int);
                }
                let ghost before = out.deep_view();
                let raw = entries[i].name.as_str();
                let name = if flags & V_PREFIX != 0 && !str_starts(raw, "v") {
                    cat2("v", raw)
                } else {
                    raw.to_owned()
                };
                let fits = if flags & CASE_INSENSITIVE != 0 {
                    let n = chars_of(name.as_str());
                    let p = chars_of(prefix);
                    let lp = string_of(lower_text(p.as_slice()).as_slice());
                    starts_with(lower_text(n.as_slice()).as_slice(), lp.as_str())
                } else {
                    str_starts(name.as_str(), prefix)
                };
                if fits {
                    let m = (name, dir.child(raw));
                    out.push(m);
                    assert(out.deep_view() =~= before.push((m.0@, m.1@)));
                }
                assert(disk.holds() ==> out.deep_view() =~= was + all.take(i + 1).filter_map(pick));
                i = i + 1;
            }
            assert(all.take(i as int) =~= all);
        },
        None => {
            assert(disk.holds()
                ==> out.deep_view() =~= was + matches_in(old(disk)@, flags, prefix@)(dir@));
        },
    }
}

fn find_path(matches: &Vec<(String, FilePath)>, name: &str) -> (r: Vec<FilePath>)
    ensures
        r.deep_view() == opt_path(path_named(matches.deep_view(), name@)),
{
    let ghost all = matches.deep_view();
    let ghost f = |m: (Seq<char>, Seq<Seq<char>>)|
        if m.0 == name@ {
            Some(m.1)
        } else {
            None
        };
    let mut out: Vec<FilePath> = Vec::new();
    let mut i: usize = 0;
    assert(all.skip(0) =~= all);
    while i < matches.len()
        invariant
            i <= matches.len(),
            all == matches.deep_view(),
            f == (|m: (Seq<char>, Seq<Seq<char>>)|
                if m.0 == name@ {
                    Some(m.1)
                } else {
                    None
                }),
            out.deep_view() =~= seq![],
            path_named(all, name@) == first_some(all.skip(i as int), f),
        decreases matches.len() - i,
    {
        proof {
            assert(all[i as int] == (matches@[i as int].0@, matches@[i as int].1@));
            lemma_first_some_step(all, f, i as int);
        }
        if same(matches[i].0.as_str(), name) {
            put_path(&mut out, matches[i].1.copy());
            assert(out.deep_view() =~= seq![matches@[i as int].1@]);
            return out;
        }
        i = i + 1;
    }
    assert(out.deep_view() =~= opt_path(path_named(all, name@)));
    out
}

fn least_of(matches: &Vec<(String, FilePath)>) -> (r: Option<String>)
    ensures
        r.deep_view() == least_name(matches.deep_view()),
{
    let ghost all = matches.deep_view();
    let mut best: Option<String> = None;
    let mut i: usize = 0;
    while i < matches.len()
        invariant
            i <= matches.len(),
            all == matches.deep_view(),
            best.deep_view() == least_name(all.take(i as int)),
        decreases matches.len() - i,
    {
        proof {
            assert(all.take(i + 1).drop_last() =~= all.take(i as int));
            assert(all.take(i + 1).last() == (matches@[i as int].0@, matches@[i as int].1@));
        }
        let less = match &best {
            Some(b) => str_before(matches[i].0.as_str(), b.as_str()),
            None => true,
        };
        if less {
            best = Some(matches[i].0.clone());
        }
        i = i + 1;
    }
    assert(all.take(i as int) =~= all);
    best
}

fn tails_of(matches: &Vec<(String, FilePath)>, prefix: &str) -> (r: Vec<String>)
    ensures
        r.deep_view() == tails(matches.deep_view(), prefix@),
{
    let ghost all = matches.deep_view();
    let ghost f = |m: (Seq<char>, Seq<Seq<char>>)| without_prefix(m.0, prefix@);
    let mut out: Vec<String> = Vec::new();
    let mut i: usize = 0;
    proof {
        lemma_filter_map_start(all, f);
        assert(out.deep_view() =~= all.take(0).filter_map(f));
    }
    while i < matches.len()
        invariant
            i <= matches.len(),
            all == matches.deep_view(),
            f == (|m: (Seq<char>, Seq<Seq<char>>)| without_prefix(m.0, prefix@)),
            out.deep_view() == all.take(i as int).filter_map(f),
        decreases matches.len() - i,
    {
        proof {
            assert(all[i as int] == (matches@[i as int].0@, matches@[i as int].1@));
            all.lemma_filter_map_take_succ(f, i as int);
        }
        let c = chars_of(matches[i].0.as_str());
        if let Some(tail) = strip_prefix(c.as_slice(), prefix) {
            put_text(&mut out, string_of(tail));
        }
        assert(out.deep_view() =~= all.take(i + 1).filter_map(f));
        i = i + 1;
    }
    assert(all.take(i as int) =~= all);
    out
}

/// The matches that count: all of them, the first by name, or the one that the pin stands for.
pub fn select_matches(
    select: Select,
    matches: &Vec<(String, FilePath)>,
    prefix: &str,
    pin: &str,
) -> (r: Vec<FilePath>)
    ensures
        r.deep_view() == selected(select, matches.deep_view(), prefix@, pin@),
{
    match select {
        Select::All => {
            let ghost want = selected(select, matches.deep_view(), prefix@, pin@);
            let mut out: Vec<FilePath> = Vec::new();
            let mut i: usize = 0;
            while i < matches.len()
                invariant
                    i <= matches.len(),
                    want == Seq::new(
                        matches.deep_view().len(),
                        |i: int| matches.deep_view()[i].1,
                    ),
                    out.deep_view() =~= want.take(i as int),
                decreases matches.len() - i,
            {
                assert(matches.deep_view()[i as int] == (
                    matches@[i as int].0@,
                    matches@[i as int].1@,
                ));
                put_path(&mut out, matches[i].1.copy());
                i = i + 1;
            }
            assert(want.take(i as int) =~= want);
            out
        },
        Select::First => match least_of(matches) {
            Some(n) => find_path(matches, n.as_str()),
            None => {
                let out: Vec<FilePath> = Vec::new();
                assert(out.deep_view() =~= seq![]);
                out
            },
        },
        Select::MaxSemver => {
            let names = tails_of(matches, prefix);
            match newest_matching_version(pin, &names) {
                Some(tail) => find_path(matches, cat2(prefix, tail.as_str()).as_str()),
                None => {
                    let out: Vec<FilePath> = Vec::new();
                    assert(out.deep_view() =~= seq![]);
                    out
                },
            }
        },
    }
}

/// The entries of the directories whose names begin with the prefix, as far as they count. With
/// several directories, the first has the say where two entries have the same name.
pub fn eval_match(
    dirs: &Vec<&'static str>,
    prefix: &str,
    select: Select,
    tokens: &Vec<(&'static str, String)>,
    home: &FilePath,
    flags: Flags,
    pin: &str,
    disk: &mut Disk,
) -> (r: Vec<FilePath>)
    requires
        old(disk).wf(),
    ensures
        final(disk).asked(*old(disk)),
        final(disk).holds() ==> r.deep_view() == matched(
            old(disk)@,
            home@,
            dirs@,
            prefix@,
            select,
            tokens.deep_view(),
            flags,
            pin@,
        ),
{
    let ghost facts = disk@;
    let p = substitute(prefix, tokens);
    let found = expand_templates(dirs, tokens, home, disk);
    let ghost all = found.deep_view();
    let ghost f = matches_in(facts, flags, p@);
    let mut matches: Vec<(String, FilePath)> = Vec::new();
    let mut i: usize = 0;
    proof {
        lemma_flat_start(all, f);
        assert(matches.deep_view() =~= flat(all.take(0), f));
    }
    let ghost start = *disk;
    while i < found.len()
        invariant
            i <= found.len(),
            all == found.deep_view(),
            facts == old(disk)@,
            f == matches_in(facts, flags, p@),
            disk.asked(*old(disk)),
            disk.holds() ==> start.holds(),
            disk.holds() ==> (matches.deep_view() == flat(all.take(i as int), f)),
        decreases found.len() - i,
    {
        proof {
            assert(all[i as int] == found@[i as int]@);
            lemma_flat_step(all, f, i as int);
        }
        put_matches(disk, &found[i], p.as_str(), flags, &mut matches);
        i = i + 1;
    }
    assert(all.take(i as int) =~= all);
    select_matches(select, &matches, p.as_str(), pin)
}

/// A path that a key has led to, and the finding that it comes from.
pub struct Located {
    pub path: FilePath,
    pub finding: Option<FindingId>,
}

impl DeepView for Located {
    type V = (Seq<Seq<char>>, Option<FindingId>);

    open spec fn deep_view(&self) -> (Seq<Seq<char>>, Option<FindingId>) {
        (self.path@, self.finding)
    }
}

/// Paths, each with the same finding.
pub open spec fn located(paths: Seq<Seq<Seq<char>>>, finding: Option<FindingId>) -> Seq<
    (Seq<Seq<char>>, Option<FindingId>),
> {
    Seq::new(paths.len(), |i: int| (paths[i], finding))
}

fn locate(paths: Vec<FilePath>, finding: Option<FindingId>) -> (r: Vec<Located>)
    ensures
        r.deep_view() == located(paths.deep_view(), finding),
{
    let ghost want = located(paths.deep_view(), finding);
    let mut out: Vec<Located> = Vec::new();
    let mut i: usize = 0;
    while i < paths.len()
        invariant
            i <= paths.len(),
            want == located(paths.deep_view(), finding),
            out.deep_view() =~= want.take(i as int),
        decreases paths.len() - i,
    {
        let ghost was = out.deep_view();
        assert(paths.deep_view()[i as int] == paths@[i as int]@);
        let l = Located { path: paths[i].copy(), finding };
        out.push(l);
        assert(out.deep_view() =~= was.push(l.deep_view()));
        i = i + 1;
    }
    assert(want.take(i as int) =~= want);
    out
}

/// Whether a finding has this name under one of the keys.
pub open spec fn has_key(meta: DocView, keys: Seq<&'static str>, name: Seq<char>) -> bool {
    exists|i: int| 0 <= i < keys.len() && text_field(meta, (#[trigger] keys[i])@) == Some(name)
}

fn finding_has_key(meta: &Doc, keys: &Vec<&'static str>, name: &str) -> (r: bool)
    ensures
        r == has_key(meta@, keys@, name@),
{
    let mut i: usize = 0;
    while i < keys.len()
        invariant
            i <= keys.len(),
            forall|j: int|
                0 <= j < i ==> text_field(meta@, (#[trigger] keys@[j])@) != Some(name@),
        decreases keys.len() - i,
    {
        if let Some(s) = meta.text(keys[i]) {
            if same(s, name) {
                return true;
            }
        }
        i = i + 1;
    }
    false
}

/// A finding of this kind with this name under one of the keys.
pub open spec fn finding_for(
    kind: FindingKind,
    keys: Seq<&'static str>,
    name: Seq<char>,
) -> spec_fn(FindingView) -> Option<FindingView> {
    |f: FindingView|
        if f.kind == kind && has_key(f.meta, keys, name) {
            Some(f)
        } else {
            None
        }
}

/// Texts, as paths.
pub open spec fn paths_of(texts: Seq<Seq<char>>) -> Seq<Seq<Seq<char>>> {
    Seq::new(texts.len(), |i: int| path_of(texts[i]))
}

/// The paths that a finding gives.
pub open spec fn finding_paths(f: FindingView, from: PathFrom) -> Seq<Seq<Seq<char>>> {
    match from {
        PathFrom::Path => opt_path(f.path),
        PathFrom::AppPaths => paths_of(texts_of(list_of(field(f.meta, "app_paths"@)))),
    }
}

fn paths_in(f: &Finding, from: PathFrom) -> (r: Vec<FilePath>)
    ensures
        r.deep_view() == finding_paths(f@, from),
{
    let mut out: Vec<FilePath> = Vec::new();
    match from {
        PathFrom::Path => {
            if let Some(p) = &f.path {
                put_path(&mut out, p.copy());
            }
            assert(out.deep_view() =~= finding_paths(f@, from));
        },
        PathFrom::AppPaths => {
            let texts = text_items(&f.meta, "app_paths");
            let ghost want = paths_of(texts.deep_view());
            let mut i: usize = 0;
            while i < texts.len()
                invariant
                    i <= texts.len(),
                    want == paths_of(texts.deep_view()),
                    out.deep_view() =~= want.take(i as int),
                decreases texts.len() - i,
            {
                assert(texts.deep_view()[i as int] == texts@[i as int]@);
                put_path(&mut out, FilePath::from_text(texts[i].as_str()));
                i = i + 1;
            }
            assert(want.take(i as int) =~= want);
        },
    }
    out
}

/// What the first finding that has the key gives.
pub open spec fn located_in(
    findings: Seq<FindingView>,
    kind: FindingKind,
    keys: Seq<&'static str>,
    name: Seq<char>,
    from: PathFrom,
) -> Seq<(Seq<Seq<char>>, Option<FindingId>)> {
    match first_some(findings, finding_for(kind, keys, name)) {
        Some(f) => located(finding_paths(f, from), Some(f.id)),
        None => seq![],
    }
}

pub(crate) fn locate_in(
    findings: &[Finding],
    kind: FindingKind,
    keys: &Vec<&'static str>,
    name: &str,
    from: PathFrom,
) -> (r: Vec<Located>)
    ensures
        r.deep_view() == located_in(findings.deep_view(), kind, keys@, name@, from),
{
    let ghost all = findings.deep_view();
    let ghost f = finding_for(kind, keys@, name@);
    let mut i: usize = 0;
    assert(all.skip(0) =~= all);
    while i < findings.len()
        invariant
            i <= findings.len(),
            all == findings.deep_view(),
            f == finding_for(kind, keys@, name@),
            first_some(all, f) == first_some(all.skip(i as int), f),
        decreases findings.len() - i,
    {
        proof {
            assert(all[i as int] == findings@[i as int]@);
            lemma_first_some_step(all, f, i as int);
        }
        if findings[i].kind == kind && finding_has_key(&findings[i].meta, keys, name) {
            return locate(paths_in(&findings[i], from), Some(findings[i].id));
        }
        i = i + 1;
    }
    let out: Vec<Located> = Vec::new();
    assert(out.deep_view() =~= seq![]);
    out
}

/// Where a function leads from a key.
pub open spec fn derived(
    derive: Derive,
    key: KeyView,
    project: ProjectView,
    env: EnvView,
    disk: DiskView,
) -> Seq<Seq<Seq<char>>> {
    match derive {
        Derive::NpmCacache => npm_paths(disk, env, key),
        Derive::CargoTargetDir => seq![target_dir(key.name, env.home, project.root)],
        Derive::GoModuleCache => existing(disk, module_paths(env, key)),
        Derive::ProjectNameCache => name_caches(env, key.name),
        Derive::JetbrainsDirs => jetbrains_paths(disk, env.home, key.name),
        Derive::ClaudeCliCache => existing(
            disk,
            seq![cli_cache(env.agent, env.home, project.root)],
        ),
    }
}

fn derive_paths(
    derive: Derive,
    key: &Key,
    project: &Project,
    env: &ResolveEnv,
    disk: &mut Disk,
    memo: &mut NpmMemo,
) -> (r: Vec<FilePath>)
    requires
        old(disk).wf(),
        old(disk).holds() ==> old(memo).wf(old(disk)@, env@.home),
    ensures
        final(disk).asked(*old(disk)),
        final(disk).holds() ==> final(memo).wf(old(disk)@, env@.home),
        final(disk).holds() ==> r.deep_view() == derived(derive, key@, project@, env@, old(disk)@),
{
    match derive {
        Derive::NpmCacache => npm_cacache(key, env, disk, memo),
        Derive::CargoTargetDir => cargo_target_dir(key, project, env),
        Derive::GoModuleCache => go_module_cache(key, env, disk),
        Derive::ProjectNameCache => project_name_cache(key, env),
        Derive::JetbrainsDirs => jetbrains_dirs(key, env, disk),
        Derive::ClaudeCliCache => claude_cli_cache(project, env, disk),
    }
}

/// Where a row leads from a key.
pub open spec fn targets(
    row: LookupView,
    key: KeyView,
    made_by: Option<Seq<Seq<char>>>,
    project: ProjectView,
    env: EnvView,
    disk: DiskView,
) -> Seq<(Seq<Seq<char>>, Option<FindingId>)> {
    match row.target {
        TargetView::Path(templates) => if templates.len() == 0 {
            located(opt_path(made_by), None)
        } else {
            located(
                existing(disk, flat(templates, template_paths(disk, env.home, key_tokens(key)))),
                None,
            )
        },
        TargetView::Match { dirs, prefix, select } => located(
            matched(
                disk,
                env.home,
                dirs,
                prefix@,
                select,
                key_tokens(key),
                row.flags,
                key.name,
            ),
            None,
        ),
        TargetView::Finding { scanner, kind, key_meta, path } => located_in(
            env.findings(scanner),
            kind,
            key_meta,
            key.name,
            path,
        ),
        TargetView::Derive(derive) => located(derived(derive, key, project, env, disk), None),
    }
}

/// A claim, tagged with an ecosystem where there is one.
pub open spec fn tagged_with(c: ClaimView, ecosystem: Option<&'static str>) -> ClaimView {
    match ecosystem {
        Some(e) => c.tagged(e@),
        None => c,
    }
}

/// The claim of a row on a path that a key has led to.
pub open spec fn lookup_claim(
    row: LookupView,
    key: KeyView,
    file: Seq<char>,
    rel: Seq<char>,
    root: Seq<Seq<char>>,
) -> spec_fn((Seq<Seq<char>>, Option<FindingId>)) -> ClaimView {
    |l: (Seq<Seq<char>>, Option<FindingId>)|
        {
            let tokens = path_tokens(key, file, rel, l.0);
            let c0 = plain_claim(
                l.0,
                path_text(root),
                row.kind,
                row.tier,
                filled(row.evidence@, tokens),
            ).labelled(filled(row.label@, tokens));
            let c1 = if row.flags & CLONE_OF_STORE != 0 {
                c0.cloned_store()
            } else {
                c0
            };
            let c2 = match l.1 {
                Some(id) => c1.of_finding(id),
                None => c1,
            };
            tagged_with(c2, row.ecosystem)
        }
}

/// The claims of a row for a key.
pub open spec fn target_claims(
    row: LookupView,
    key: KeyView,
    file: Seq<char>,
    rel: Seq<char>,
    made_by: Option<Seq<Seq<char>>>,
    project: ProjectView,
    env: EnvView,
    disk: DiskView,
) -> Seq<ClaimView> {
    let found = targets(row, key, made_by, project, env, disk);
    Seq::new(found.len(), |i: int| lookup_claim(row, key, file, rel, project.root)(found[i]))
}

fn find_targets(
    row: &Lookup,
    key: &Key,
    made_by: &Option<FilePath>,
    project: &Project,
    env: &ResolveEnv,
    disk: &mut Disk,
    memo: &mut NpmMemo,
) -> (r: Vec<Located>)
    requires
        old(disk).wf(),
        old(disk).holds() ==> old(memo).wf(old(disk)@, env@.home),
    ensures
        final(disk).asked(*old(disk)),
        final(disk).holds() ==> final(memo).wf(old(disk)@, env@.home),
        final(disk).holds() ==> r.deep_view() == targets(
            row@,
            key@,
            made_by.deep_view(),
            project@,
            env@,
            old(disk)@,
        ),
{
    let tokens = target_tokens(key);
    match &row.target {
        Target::Path(templates) => {
            if templates.len() == 0 {
                let mut paths: Vec<FilePath> = Vec::new();
                if let Some(p) = made_by {
                    put_path(&mut paths, p.copy());
                }
                assert(paths.deep_view() =~= opt_path(made_by.deep_view()));
                locate(paths, None)
            } else {
                let paths = expand_templates(templates, &tokens, &env.home, disk);
                let kept = keep_existing(disk, paths);
                locate(kept, None)
            }
        },
        Target::Match { dirs, prefix, select } => {
            let paths = eval_match(
                dirs,
                *prefix,
                *select,
                &tokens,
                &env.home,
                row.flags,
                key.name.as_str(),
                disk,
            );
            locate(paths, None)
        },
        Target::Finding { scanner, kind, key_meta, path } => locate_in(
            env.findings(*scanner),
            *kind,
            key_meta,
            key.name.as_str(),
            *path,
        ),
        Target::Derive(derive) => {
            let paths = derive_paths(*derive, key, project, env, disk, memo);
            locate(paths, None)
        },
    }
}

fn make_lookup_claim(
    row: &Lookup,
    key: &Key,
    file: &str,
    rel: &str,
    root: &FilePath,
    l: &Located,
) -> (r: Claim)
    ensures
        r@ == lookup_claim(row@, key@, file@, rel@, root@)(l.deep_view()),
{
    let tokens = label_tokens(key, file, rel, &l.path);
    let evidence = substitute(row.evidence, &tokens);
    let label = substitute(row.label, &tokens);
    let owner = root.text();
    let mut claim = Claim::new(
        l.path.copy(),
        owner.as_str(),
        row.kind,
        row.tier,
        evidence.as_str(),
    ).label(label.as_str());
    if row.flags & CLONE_OF_STORE != 0 {
        claim = claim.clone_of_store();
    }
    if let Some(id) = l.finding {
        claim = claim.finding(id);
    }
    if let Some(eco) = row.ecosystem {
        claim = claim.ecosystem(eco);
    }
    claim
}

/// The claims of a row for a key: one for each path that the key leads to.
pub fn eval_target(
    row: &Lookup,
    key: &Key,
    file: &str,
    rel: &str,
    made_by: &Option<FilePath>,
    project: &Project,
    env: &ResolveEnv,
    disk: &mut Disk,
    memo: &mut NpmMemo,
) -> (r: Vec<Claim>)
    requires
        old(disk).wf(),
        old(disk).holds() ==> old(memo).wf(old(disk)@, env@.home),
    ensures
        final(disk).asked(*old(disk)),
        final(disk).holds() ==> final(memo).wf(old(disk)@, env@.home),
        final(disk).holds() ==> r.deep_view() == target_claims(
            row@,
            key@,
            file@,
            rel@,
            made_by.deep_view(),
            project@,
            env@,
            old(disk)@,
        ),
{
    let ghost want = target_claims(
        row@,
        key@,
        file@,
        rel@,
        made_by.deep_view(),
        project@,
        env@,
        disk@,
    );
    let found = find_targets(row, key, made_by, project, env, disk, memo);
    let ghost all = found.deep_view();
    let mut out: Vec<Claim> = Vec::new();
    let mut i: usize = 0;
    assert(all.len() == found.len());
    while i < found.len()
        invariant
            i <= found.len(),
            all == found.deep_view(),
            disk.holds() ==> want.len() == found.len(),
            disk.holds() ==> want == Seq::new(
                all.len(),
                |i: int| lookup_claim(row@, key@, file@, rel@, project@.root)(all[i]),
            ),
            disk.holds() ==> out.deep_view() =~= want.take(i as int),
        decreases found.len() - i,
    {
        assert(all[i as int] == found@[i as int].deep_view());
        let c = make_lookup_claim(row, key, file, rel, &project.root, &found[i]);
        put(&mut out, c);
        i = i + 1;
    }
    assert(disk.holds() ==> want.take(i as int) =~= want);
    out
}

/// The claims of a row for several keys of one manifest.
pub open spec fn keys_claims(
    row: LookupView,
    file: Seq<char>,
    rel: Seq<char>,
    project: ProjectView,
    env: EnvView,
    disk: DiskView,
) -> spec_fn(KeyView) -> Seq<ClaimView> {
    |key: KeyView| target_claims(row, key, file, rel, None, project, env, disk)
}

fn eval_keys(
    row: &Lookup,
    keys: &Vec<Key>,
    file: &str,
    rel: &str,
    project: &Project,
    env: &ResolveEnv,
    disk: &mut Disk,
    memo: &mut NpmMemo,
) -> (r: Vec<Claim>)
    requires
        old(disk).wf(),
        old(disk).holds() ==> old(memo).wf(old(disk)@, env@.home),
    ensures
        final(disk).asked(*old(disk)),
        final(disk).holds() ==> final(memo).wf(old(disk)@, env@.home),
        final(disk).holds() ==> r.deep_view() == flat(
            keys.deep_view(),
            keys_claims(row@, file@, rel@, project@, env@, old(disk)@),
        ),
{
    let ghost facts = disk@;
    let ghost all = keys.deep_view();
    let ghost f = keys_claims(row@, file@, rel@, project@, env@, facts);
    let mut out: Vec<Claim> = Vec::new();
    let mut i: usize = 0;
    proof {
        lemma_flat_start(all, f);
        assert(out.deep_view() =~= flat(all.take(0), f));
    }
    while i < keys.len()
        invariant
            i <= keys.len(),
            all == keys.deep_view(),
            facts == old(disk)@,
            f == keys_claims(row@, file@, rel@, project@, env@, facts),
            disk.asked(*old(disk)),
            disk.holds() ==> memo.wf(facts, env@.home),
            disk.holds() ==> out.deep_view() == flat(all.take(i as int), f),
        decreases keys.len() - i,
    {
        proof {
            assert(all[i as int] == keys@[i as int]@);
            lemma_flat_step(all, f, i as int);
        }
        let more = eval_target(row, &keys[i], file, rel, &None, project, env, disk, memo);
        put_all(&mut out, more);
        i = i + 1;
    }
    assert(all.take(i as int) =~= all);
    out
}

/// Whether a directory of this name is looked into for manifests of a rule.
pub open spec fn searched(name: Seq<char>) -> bool {
    !starts(name, "."@) && !artifact_dir(name)
}

/// Whether a name has one of the forms.
pub open spec fn any_form(names: Seq<&'static str>, name: Seq<char>) -> bool {
    exists|i: int| 0 <= i < names.len() && matches_glob((#[trigger] names[i])@, name)
}

/// The path of an entry that is no directory and has one of the forms.
pub open spec fn manifest_entry(names: Seq<&'static str>, dir: Seq<Seq<char>>) -> spec_fn(
    (Seq<char>, NodeKind),
) -> Option<Seq<Seq<char>>> {
    |e: (Seq<char>, NodeKind)|
        if e.1 != NodeKind::Dir && any_form(names, e.0) {
            Some(child(dir, e.0))
        } else {
            None
        }
}

/// The manifests directly in a directory.
pub open spec fn manifests_in(disk: DiskView, names: Seq<&'static str>, dir: Seq<Seq<char>>) -> Seq<
    Seq<Seq<char>>,
> {
    match disk.list(dir) {
        Some(entries) => entries.filter_map(manifest_entry(names, dir)),
        None => seq![],
    }
}

/// The manifests in a directory and below it, `deeper` levels down.
pub open spec fn tree_manifests(
    disk: DiskView,
    names: Seq<&'static str>,
    at: Seq<Seq<char>>,
    node: DirView,
    deeper: nat,
) -> Seq<Seq<Seq<char>>>
    decreases deeper, 1int, 0nat,
{
    manifests_in(disk, names, at) + dirs_manifests(disk, names, at, node.children, deeper)
}

/// The manifests in these directories and below them.
pub open spec fn dirs_manifests(
    disk: DiskView,
    names: Seq<&'static str>,
    at: Seq<Seq<char>>,
    dirs: Seq<DirView>,
    deeper: nat,
) -> Seq<Seq<Seq<char>>>
    decreases deeper, 0int, dirs.len(),
{
    if deeper == 0 || dirs.len() == 0 {
        seq![]
    } else {
        let d = dirs.last();
        dirs_manifests(disk, names, at, dirs.drop_last(), deeper) + (if searched(d.name) {
            tree_manifests(disk, names, child(at, d.name), d, (deeper - 1) as nat)
        } else {
            seq![]
        })
    }
}

/// How many of the paths stand before one like `p`.
pub open spec fn path_place(s: Seq<Seq<Seq<char>>>, p: Seq<Seq<char>>) -> int
    decreases s.len(),
{
    if s.len() == 0 || !path_lt(p, s.last()) {
        s.len() as int
    } else {
        path_place(s.drop_last(), p)
    }
}

/// The paths in their order.
pub open spec fn in_order(s: Seq<Seq<Seq<char>>>) -> Seq<Seq<Seq<char>>>
    decreases s.len(),
{
    if s.len() == 0 {
        seq![]
    } else {
        let front = in_order(s.drop_last());
        front.insert(path_place(front, s.last()), s.last())
    }
}

fn insert_path(list: &mut Vec<FilePath>, p: FilePath)
    requires
        old(list).len() < usize::MAX,
    ensures
        final(list).deep_view() == old(list).deep_view().insert(
            path_place(old(list).deep_view(), p@),
            p@,
        ),
        final(list).len() == old(list).len() + 1,
{
    let ghost s = list.deep_view();
    let mut n: usize = list.len();
    assert(s.take(n as int) =~= s);
    while n > 0 && p.before(&list[n - 1])
        invariant
            n <= list.len(),
            s == list.deep_view(),
            path_place(s, p@) == path_place(s.take(n as int), p@),
        decreases n,
    {
        proof {
            assert(s.take(n as int).last() == list@[n - 1]@);
            assert(s.take(n as int).drop_last() =~= s.take(n - 1));
        }
        n = n - 1;
    }
    proof {
        if n > 0 {
            assert(s.take(n as int).last() == list@[n - 1]@);
        }
    }
    list.insert(n, p);
    assert(list.deep_view() =~= s.insert(n as int, p@));
}

/// The paths in their order.
pub fn sort_paths(paths: &Vec<FilePath>) -> (r: Vec<FilePath>)
    ensures
        r.deep_view() == in_order(paths.deep_view()),
{
    let ghost all = paths.deep_view();
    let mut out: Vec<FilePath> = Vec::new();
    let mut i: usize = 0;
    assert(out.deep_view() =~= in_order(all.take(0)));
    while i < paths.len()
        invariant
            i <= paths.len(),
            all == paths.deep_view(),
            out.len() == i,
            out.deep_view() == in_order(all.take(i as int)),
        decreases paths.len() - i,
    {
        proof {
            assert(all.take(i + 1).drop_last() =~= all.take(i as int));
            assert(all.take(i + 1).last() == paths@[i as int]@);
        }
        insert_path(&mut out, paths[i].copy());
        i = i + 1;
    }
    assert(all.take(i as int) =~= all);
    out
}

fn has_form(names: &Vec<&'static str>, name: &str) -> (r: bool)
    ensures
        r == any_form(names@, name@),
{
    let mut i: usize = 0;
    while i < names.len()
        invariant
            i <= names.len(),
            forall|j: int| 0 <= j < i ==> !matches_glob((#[trigger] names@[j])@, name@),
        decreases names.len() - i,
    {
        if glob_match(names[i], name) {
            return true;
        }
        i = i + 1;
    }
    false
}

fn put_manifests(disk: &mut Disk, names: &Vec<&'static str>, dir: &FilePath, out: &mut Vec<FilePath>)
    requires
        old(disk).wf(),
    ensures
        final(disk).asked(*old(disk)),
        final(disk).holds()
            ==> final(out).deep_view() == old(out).deep_view() + manifests_in(old(disk)@, names@, dir@),
{
    let ghost was = out.deep_view();
    match disk.list(dir) {
        Some(entries) => {
            let ghost all = entries.deep_view();
            let ghost pick = manifest_entry(names@, dir@);
            let mut i: usize = 0;
            proof {
                lemma_filter_map_start(all, pick);
                assert(out.deep_view() =~= was + all.take(0).filter_map(pick));
            }
            while i < entries.len()
                invariant
                    i <= entries.len(),
                    all == entries.deep_view(),
                    pick == manifest_entry(names@, dir@),
                    disk.holds() ==> out.deep_view() == was + all.take(i as int).filter_map(pick),
                decreases entries.len() - i,
            {
                proof {
                    assert(all[i as int] == entries@[i as int].deep_view());
                    all.lemma_filter_map_take_succ(pick, i as int);
                }
                if entries[i].kind != NodeKind::Dir && has_form(names, entries[i].name.as_str()) {
                    put_path(out, dir.child(entries[i].name.as_str()));
                }
                assert(disk.holds() ==> out.deep_view() =~= was + all.take(i + 1).filter_map(pick));
                i = i + 1;
            }
            assert(all.take(i as int) =~= all);
        },
        None => {
            assert(disk.holds()
                ==> out.deep_view() =~= was + manifests_in(old(disk)@, names@, dir@));
        },
    }
}

fn put_tree_manifests(
    disk: &mut Disk,
    names: &Vec<&'static str>,
    at: &FilePath,
    node: &DirNode,
    deeper: usize,
    out: &mut Vec<FilePath>,
)
    requires
        old(disk).wf(),
    ensures
        final(disk).asked(*old(disk)),
        final(disk).holds() ==> final(out).deep_view() == old(out).deep_view() + tree_manifests(
            old(disk)@,
            names@,
            at@,
            node@,
            deeper as nat,
        ),
    decreases deeper,
{
    let ghost facts = disk@;
    let ghost was = out.deep_view();
    put_manifests(disk, names, at, out);
    let ghost own = out.deep_view();
    let ghost all = node@.children;
    if deeper > 0 {
        let mut i: usize = 0;
        assert(out.deep_view() =~= own + dirs_manifests(
            facts,
            names@,
            at@,
            all.take(0),
            deeper as nat,
        ));
        let ghost start = *disk;
        while i < node.children.len()
            invariant
                i <= node.children.len(),
                deeper > 0,
                all == node@.children,
                facts == old(disk)@,
                disk.asked(*old(disk)),
                disk.holds() ==> start.holds(),
                disk.holds() ==> out.deep_view() == own + dirs_manifests(
                    facts,
                    names@,
                    at@,
                    all.take(i as int),
                    deeper as nat,
                ),
            decreases node.children.len() - i,
        {
            let d = &node.children[i];
            let ghost before = out.deep_view();
            proof {
                assert(all[i as int] == d@);
                assert(all.take(i + 1).drop_last() =~= all.take(i as int));
                assert(all.take(i + 1).last() == d@);
            }
            let name = d.name.as_str();
            if !str_starts(name, ".") && !is_artifact_dir(name) {
                let sub = at.child(name);
                put_tree_manifests(disk, names, &sub, d, deeper - 1, out);
            }
            assert(disk.holds() ==> out.deep_view() =~= own + dirs_manifests(
                facts,
                names@,
                at@,
                all.take(i + 1),
                deeper as nat,
            ));
            i = i + 1;
        }
        assert(all.take(i as int) =~= all);
    }
    assert(disk.holds()
        ==> out.deep_view() =~= was + tree_manifests(facts, names@, at@, node@, deeper as nat));
}

/// The manifests with one of these names in a project, in the order of their paths.
pub open spec fn found_manifests(
    env: EnvView,
    disk: DiskView,
    root: Seq<Seq<char>>,
    names: Seq<&'static str>,
    depth: nat,
) -> Seq<Seq<Seq<char>>> {
    match node_in(env.trees, root) {
        Some(node) => in_order(tree_manifests(disk, names, root, node, depth)),
        None => seq![],
    }
}

/// The manifests with one of these names in a project, in the order of their paths. Hidden
/// directories and those with build output are left out.
pub fn find_in_subtree(
    root: &FilePath,
    names: &Vec<&'static str>,
    depth: usize,
    env: &ResolveEnv,
    disk: &mut Disk,
) -> (r: Vec<FilePath>)
    requires
        old(disk).wf(),
    ensures
        final(disk).asked(*old(disk)),
        final(disk).holds()
            ==> r.deep_view() == found_manifests(env@, old(disk)@, root@, names@, depth as nat),
{
    let mut out: Vec<FilePath> = Vec::new();
    assert(out.deep_view() =~= seq![]);
    match node_at(&env.trees, root) {
        Some(node) => {
            put_tree_manifests(disk, names, root, node, depth, &mut out);
            let ghost found = tree_manifests(old(disk)@, names@, root@, node@, depth as nat);
            assert(disk.holds() ==> out.deep_view() =~= found);
            sort_paths(&out)
        },
        None => out,
    }
}

/// The directory of a manifest, from the project's root.
pub open spec fn rel_dir(root: Seq<Seq<char>>, file: Seq<Seq<char>>) -> Seq<char> {
    let dir = match parent(file) {
        Some(d) => d,
        None => root,
    };
    if dir != root && under(dir, root) {
        path_text(dir.skip(root.len() as int))
    } else {
        seq![]
    }
}

/// The directory of a manifest, from the project's root; nothing for the root itself.
pub fn relative_dir_label(root: &FilePath, file_path: &FilePath) -> (r: String)
    ensures
        r@ == rel_dir(root@, file_path@),
{
    let dir = match file_path.parent() {
        Some(d) => d,
        None => root.copy(),
    };
    if !dir.same(root) {
        if let Some(rel) = dir.strip_prefix(root) {
            return rel.text();
        }
    }
    let r = String::new();
    assert(r@ =~= seq![]);
    r
}

/// The claims of a row for the keys in one manifest.
pub open spec fn file_claims(
    row: LookupView,
    parse: Parse,
    cap: usize,
    project: ProjectView,
    env: EnvView,
    disk: DiskView,
) -> spec_fn(Seq<Seq<char>>) -> Seq<ClaimView> {
    |p: Seq<Seq<char>>|
        match disk.head(p, cap) {
            Some(text) => flat(
                manifest_keys(parse, text),
                keys_claims(row, end_name(p), rel_dir(project.root, p), project, env, disk),
            ),
            None => seq![],
        }
}

/// The list that a project holds of itself.
pub open spec fn field_of(project: ProjectView, field: ProjectField) -> Seq<Seq<char>> {
    match field {
        ProjectField::Names => project.names,
        ProjectField::BundleIds => project.bundle_ids,
    }
}

/// A key without anything.
pub open spec fn no_key() -> KeyView {
    KeyView { name: seq![], version: seq![], extra: None }
}

/// The claims of a row for a project.
pub open spec fn row_claims(row: LookupView, project: ProjectView, env: EnvView, disk: DiskView) -> Seq<
    ClaimView,
> {
    match row.trigger {
        TriggerView::Always => target_claims(
            row,
            no_key(),
            seq![],
            seq![],
            None,
            project,
            env,
            disk,
        ),
        TriggerView::Exists(rel) => if disk.present(child(project.root, rel@)) {
            target_claims(
                row,
                no_key(),
                seq![],
                seq![],
                Some(child(project.root, rel@)),
                project,
                env,
                disk,
            )
        } else {
            seq![]
        },
        TriggerView::Pin { sources, normalise } => match first_some(
            sources,
            source_pin(normalise, disk, project.root),
        ) {
            Some(pin) => target_claims(
                row,
                (KeyView { name: pin, version: pin, extra: None }),
                seq![],
                seq![],
                None,
                project,
                env,
                disk,
            ),
            None => seq![],
        },
        TriggerView::Manifest { find, parse } => match find {
            FindView::Root(name, cap) => match disk.head(child(project.root, name@), cap) {
                Some(text) => flat(
                    manifest_keys(parse, text),
                    keys_claims(row, name@, seq![], project, env, disk),
                ),
                None => seq![],
            },
            FindView::Subtree { names, depth, cap } => flat(
                found_manifests(env, disk, project.root, names, depth as nat),
                file_claims(row, parse, cap, project, env, disk),
            ),
        },
        TriggerView::Field(f) => flat(
            bare_keys(field_of(project, f)),
            keys_claims(row, seq![], seq![], project, env, disk),
        ),
    }
}

fn eval_file(
    row: &Lookup,
    parse: Parse,
    path: &FilePath,
    cap: usize,
    project: &Project,
    env: &ResolveEnv,
    disk: &mut Disk,
    memo: &mut NpmMemo,
) -> (r: Vec<Claim>)
    requires
        old(disk).wf(),
        old(disk).holds() ==> old(memo).wf(old(disk)@, env@.home),
    ensures
        final(disk).asked(*old(disk)),
        final(disk).holds() ==> final(memo).wf(old(disk)@, env@.home),
        final(disk).holds()
            ==> r.deep_view() == file_claims(row@, parse, cap, project@, env@, old(disk)@)(path@),
{
    match env.read_head(disk, path, cap) {
        Some(text) => {
            let file = end_of(path);
            let rel = relative_dir_label(&project.root, path);
            let keys = parse_keys(parse, text.as_str());
            eval_keys(row, &keys, file.as_str(), rel.as_str(), project, env, disk, memo)
        },
        None => {
            let r: Vec<Claim> = Vec::new();
            assert(r.deep_view() =~= seq![]);
            r
        },
    }
}

fn eval_files(
    row: &Lookup,
    parse: Parse,
    paths: &Vec<FilePath>,
    cap: usize,
    project: &Project,
    env: &ResolveEnv,
    disk: &mut Disk,
    memo: &mut NpmMemo,
) -> (r: Vec<Claim>)
    requires
        old(disk).wf(),
        old(disk).holds() ==> old(memo).wf(old(disk)@, env@.home),
    ensures
        final(disk).asked(*old(disk)),
        final(disk).holds() ==> final(memo).wf(old(disk)@, env@.home),
        final(disk).holds() ==> r.deep_view() == flat(
            paths.deep_view(),
            file_claims(row@, parse, cap, project@, env@, old(disk)@),
        ),
{
    let ghost facts = disk@;
    let ghost all = paths.deep_view();
    let ghost f = file_claims(row@, parse, cap, project@, env@, facts);
    let mut out: Vec<Claim> = Vec::new();
    let mut i: usize = 0;
    proof {
        lemma_flat_start(all, f);
        assert(out.deep_view() =~= flat(all.take(0), f));
    }
    while i < paths.len()
        invariant
            i <= paths.len(),
            all == paths.deep_view(),
            facts == old(disk)@,
            f == file_claims(row@, parse, cap, project@, env@, facts),
            disk.asked(*old(disk)),
            disk.holds() ==> memo.wf(facts, env@.home),
            disk.holds() ==> out.deep_view() == flat(all.take(i as int), f),
        decreases paths.len() - i,
    {
        proof {
            assert(all[i as int] == paths@[i as int]@);
            lemma_flat_step(all, f, i as int);
        }
        let more = eval_file(row, parse, &paths[i], cap, project, env, disk, memo);
        put_all(&mut out, more);
        i = i + 1;
    }
    assert(all.take(i as int) =~= all);
    out
}

fn empty_key() -> (r: Key)
    ensures
        r@ == no_key(),
{
    let r = Key { name: String::new(), version: String::new(), extra: None };
    assert(r@ =~= no_key());
    r
}

/// The claims of a row for a project.
pub fn eval_lookup(
    row: &Lookup,
    project: &Project,
    env: &ResolveEnv,
    disk: &mut Disk,
    memo: &mut NpmMemo,
) -> (r: Vec<Claim>)
    requires
        old(disk).wf(),
        old(disk).holds() ==> old(memo).wf(old(disk)@, env@.home),
    ensures
        final(disk).asked(*old(disk)),
        final(disk).holds() ==> final(memo).wf(old(disk)@, env@.home),
        final(disk).holds() ==> r.deep_view() == row_claims(row@, project@, env@, old(disk)@),
{
    let none: Vec<Claim> = Vec::new();
    assert(none.deep_view() =~= seq![]);
    proof {
        reveal_strlit("");
        assert(""@ =~= seq![]);
    }
    match &row.trigger {
        Trigger::Always => eval_target(
            row,
            &empty_key(),
            "",
            "",
            &None,
            project,
            env,
            disk,
            memo,
        ),
        Trigger::Exists(rel) => {
            let path = project.root.child(*rel);
            if disk.present(&path) {
                eval_target(row, &empty_key(), "", "", &Some(path), project, env, disk, memo)
            } else {
                none
            }
        },
        Trigger::Pin { sources, normalise } => match resolve_pin(
            sources,
            *normalise,
            project,
            env,
            disk,
        ) {
            Some(pin) => {
                let key = Key { name: pin.clone(), version: pin, extra: None };
                eval_target(row, &key, "", "", &None, project, env, disk, memo)
            },
            None => none,
        },
        Trigger::Manifest { find, parse } => match find {
            Find::Root(name, cap) => match env.read_head(
                disk,
                &project.root.child(*name),
                *cap,
            ) {
                Some(text) => {
                    let keys = parse_keys(*parse, text.as_str());
                    eval_keys(row, &keys, *name, "", project, env, disk, memo)
                },
                None => none,
            },
            Find::Subtree { names, depth, cap } => {
                let paths = find_in_subtree(&project.root, names, *depth, env, disk);
                eval_files(row, *parse, &paths, *cap, project, env, disk, memo)
            },
        },
        Trigger::Field(field) => {
            let keys = match field {
                ProjectField::Names => keys_of_names(&project.names),
                ProjectField::BundleIds => keys_of_names(&project.bundle_ids),
            };
            eval_keys(row, &keys, "", "", project, env, disk, memo)
        },
    }
}

/// The claims of one row, as a function of the row.
pub open spec fn claims_of_row(project: ProjectView, env: EnvView, disk: DiskView) -> spec_fn(
    LookupView,
) -> Seq<ClaimView> {
    |row: LookupView| row_claims(row, project, env, disk)
}

/// The claims of all rows for a project, row by row.
pub fn lookups(project: &Project, env: &ResolveEnv, disk: &mut Disk, memo: &mut NpmMemo) -> (r: Vec<
    Claim,
>)
    requires
        old(disk).wf(),
        old(disk).holds() ==> old(memo).wf(old(disk)@, env@.home),
    ensures
        final(disk).asked(*old(disk)),
        final(disk).holds() ==> final(memo).wf(old(disk)@, env@.home),
        final(disk).holds()
            ==> r.deep_view() == flat(lookup_table(env@.agent), claims_of_row(project@, env@, old(disk)@)),
{
    let ghost facts = disk@;
    let rows = lookup_rows(env.agent);
    let ghost all = rows.deep_view();
    let ghost f = claims_of_row(project@, env@, facts);
    let mut out: Vec<Claim> = Vec::new();
    let mut i: usize = 0;
    proof {
        lemma_flat_start(all, f);
        assert(out.deep_view() =~= flat(all.take(0), f));
    }
    while i < rows.len()
        invariant
            i <= rows.len(),
            all == rows.deep_view(),
            facts == old(disk)@,
            f == claims_of_row(project@, env@, facts),
            disk.asked(*old(disk)),
            disk.holds() ==> memo.wf(facts, env@.home),
            disk.holds() ==> out.deep_view() == flat(all.take(i as int), f),
        decreases rows.len() - i,
    {
        proof {
            assert(all[i as int] == rows@[i as int]@);
            lemma_flat_step(all, f, i as int);
        }
        let more = eval_lookup(&rows[i], project, env, disk, memo);
        put_all(&mut out, more);
        i = i + 1;
    }
    assert(all.take(i as int) =~= all);
    out
}

/// The path that a text names, in which `~/` at the front is the home directory.
pub open spec fn expanded(home: Seq<Seq<char>>, text: Seq<char>) -> Seq<Seq<char>> {
    if starts(text, "~/"@) {
        child(home, text.skip("~/"@.len() as int))
    } else if text == "~"@ {
        home
    } else {
        path_of(text)
    }
}

/// The path that a text names, in which `~/` at the front is the home directory.
pub fn expand(home: &FilePath, text: &str) -> (r: FilePath)
    ensures
        r@ == expanded(home@, text@),
{
    let c = chars_of(text);
    if let Some(rest) = strip_prefix(c.as_slice(), "~/") {
        return home.child(string_of(rest).as_str());
    }
    if same(text, "~") {
        return home.copy();
    }
    FilePath::from_text(text)
}

/// What a path of an ecosystem is called.
pub open spec fn baseline_label(label: Label, disk: DiskView, path: Seq<Seq<char>>) -> Seq<char> {
    match label {
        Label::Static(s) => s@,
        Label::Basename => end_name(path),
        Label::Fn(LabelFn::SimulatorDevice) => device_label(disk, path),
        Label::Fn(LabelFn::ClaudeState(title)) => title@ + " "@ + end_name(path),
    }
}

/// The claim of a row on a path.
pub open spec fn shared_claim(row: BaselineView, disk: DiskView) -> spec_fn(
    Seq<Seq<char>>,
) -> ClaimView {
    |path: Seq<Seq<char>>|
        plain_claim(
            path,
            BASELINE_OWNER@,
            row.kind,
            EvidenceTier::EcosystemDefault,
            row.evidence@,
        ).labelled(baseline_label(row.label, disk, path)).in_baseline(row.ecosystem@)
}

/// A finding of this kind that is called so.
pub open spec fn finding_called(kind: FindingKind, name: Seq<char>) -> spec_fn(
    FindingView,
) -> Option<FindingView> {
    |f: FindingView|
        if f.kind == kind && (f.title == name || text_field(f.meta, "name"@) == Some(name)) {
            Some(f)
        } else {
            None
        }
}

/// The value in a file.
pub open spec fn file_value(parse: FileValue, text: Seq<char>) -> Option<Seq<char>> {
    match parse {
        FileValue::DefaultToolchain => first_some(
            lines(text),
            line_value("default_toolchain"@),
        ),
    }
}

/// Whether a name is one of those that do not count.
pub open spec fn excluded(exclude: Seq<&'static str>, name: Seq<char>) -> bool {
    exists|i: int| 0 <= i < exclude.len() && (#[trigger] exclude[i])@ == name
}

/// The path, unless its name is one of those that do not count.
pub open spec fn not_excluded(exclude: Seq<&'static str>) -> spec_fn(Seq<Seq<char>>) -> Option<
    Seq<Seq<char>>,
> {
    |p: Seq<Seq<char>>|
        if excluded(exclude, end_name(p)) {
            None
        } else {
            Some(p)
        }
}

/// The paths that a row stands for.
pub open spec fn baseline_paths(row: BaselineView, env: EnvView, disk: DiskView) -> Seq<
    Seq<Seq<char>>,
> {
    match row.source {
        Source::FromFinding { scanner, kind, name } => match first_some(
            env.findings(scanner),
            finding_called(kind, name@),
        ) {
            Some(f) => opt_path(f.path),
            None => seq![],
        },
        Source::FromFile { file, parse } => match disk.head(expanded(env.home, file@), MANIFEST_CAP) {
            Some(text) => match file_value(parse, text) {
                Some(value) => existing(
                    disk,
                    seq![expanded(env.home, filled(row.path@, seq![("value"@, value)]))],
                ),
                None => seq![],
            },
            None => seq![],
        },
        Source::Fixed => existing(disk, globbed(disk, row.path@, env.home)).filter_map(
            not_excluded(row.exclude),
        ),
    }
}

/// The claims of a row.
pub open spec fn baseline_claims(row: BaselineView, env: EnvView, disk: DiskView) -> Seq<ClaimView> {
    let paths = baseline_paths(row, env, disk);
    Seq::new(paths.len(), |i: int| shared_claim(row, disk)(paths[i]))
}

fn path_of_finding(findings: &[Finding], kind: FindingKind, name: &str) -> (r: Vec<FilePath>)
    ensures
        r.deep_view() == (match first_some(findings.deep_view(), finding_called(kind, name@)) {
            Some(f) => opt_path(f.path),
            None => seq![],
        }),
{
    let ghost all = findings.deep_view();
    let ghost f = finding_called(kind, name@);
    let mut out: Vec<FilePath> = Vec::new();
    let mut i: usize = 0;
    assert(all.skip(0) =~= all);
    while i < findings.len()
        invariant
            i <= findings.len(),
            all == findings.deep_view(),
            f == finding_called(kind, name@),
            out.deep_view() =~= seq![],
            first_some(all, f) == first_some(all.skip(i as int), f),
        decreases findings.len() - i,
    {
        proof {
            assert(all[i as int] == findings@[i as int]@);
            lemma_first_some_step(all, f, i as int);
        }
        let called = same(findings[i].title.as_str(), name) || match findings[i].meta.text(
            "name",
        ) {
            Some(n) => same(n, name),
            None => false,
        };
        if findings[i].kind == kind && called {
            if let Some(p) = &findings[i].path {
                put_path(&mut out, p.copy());
            }
            assert(out.deep_view() =~= opt_path(findings@[i as int]@.path));
            return out;
        }
        i = i + 1;
    }
    out
}

pub(crate) fn is_excluded(exclude: &Vec<&'static str>, name: &str) -> (r: bool)
    ensures
        r == excluded(exclude@, name@),
{
    let mut i: usize = 0;
    while i < exclude.len()
        invariant
            i <= exclude.len(),
            forall|j: int| 0 <= j < i ==> (#[trigger] exclude@[j])@ != name@,
        decreases exclude.len() - i,
    {
        if same(exclude[i], name) {
            return true;
        }
        i = i + 1;
    }
    false
}

fn drop_excluded(paths: Vec<FilePath>, exclude: &Vec<&'static str>) -> (r: Vec<FilePath>)
    ensures
        r.deep_view() == paths.deep_view().filter_map(not_excluded(exclude@)),
{
    let ghost all = paths.deep_view();
    let ghost pick = not_excluded(exclude@);
    let mut out: Vec<FilePath> = Vec::new();
    let mut i: usize = 0;
    proof {
        lemma_filter_map_start(all, pick);
        assert(out.deep_view() =~= all.take(0).filter_map(pick));
    }
    while i < paths.len()
        invariant
            i <= paths.len(),
            all == paths.deep_view(),
            pick == not_excluded(exclude@),
            out.deep_view() == all.take(i as int).filter_map(pick),
        decreases paths.len() - i,
    {
        proof {
            assert(all[i as int] == paths@[i as int]@);
            all.lemma_filter_map_take_succ(pick, i as int);
        }
        if !is_excluded(exclude, end_of(&paths[i]).as_str()) {
            put_path(&mut out, paths[i].copy());
        }
        assert(out.deep_view() =~= all.take(i + 1).filter_map(pick));
        i = i + 1;
    }
    assert(all.take(i as int) =~= all);
    out
}

fn find_baseline(row: &Baseline, env: &ResolveEnv, disk: &mut Disk) -> (r: Vec<FilePath>)
    requires
        old(disk).wf(),
    ensures
        final(disk).asked(*old(disk)),
        final(disk).holds() ==> r.deep_view() == baseline_paths(row@, env@, old(disk)@),
{
    let none: Vec<FilePath> = Vec::new();
    assert(none.deep_view() =~= seq![]);
    match row.source {
        Source::FromFinding { scanner, kind, name } => path_of_finding(
            env.findings(scanner),
            kind,
            name,
        ),
        Source::FromFile { file, parse } => {
            let text = match env.read_head(disk, &expand(&env.home, file), MANIFEST_CAP) {
                Some(t) => t,
                None => {
                    return none;
                },
            };
            let value = match parse {
                FileValue::DefaultToolchain => default_toolchain(text.as_str()),
            };
            match value {
                Some(v) => {
                    let mut tokens: Vec<(&'static str, String)> = Vec::new();
                    tokens.push(("value", v));
                    assert(tokens.deep_view() =~= seq![("value"@, v@)]);
                    let t = substitute(row.path, &tokens);
                    let mut paths: Vec<FilePath> = Vec::new();
                    let p = expand(&env.home, t.as_str());
                    put_path(&mut paths, p);
                    assert(paths.deep_view() =~= seq![p@]);
                    keep_existing(disk, paths)
                },
                None => none,
            }
        },
        Source::Fixed => {
            let paths = glob_expand(row.path, &env.home, disk);
            let kept = keep_existing(disk, paths);
            drop_excluded(kept, &row.exclude)
        },
    }
}

fn baseline_claim(row: &Baseline, path: &FilePath, disk: &mut Disk) -> (r: Claim)
    requires
        old(disk).wf(),
    ensures
        final(disk).asked(*old(disk)),
        final(disk).holds() ==> r@ == shared_claim(row@, old(disk)@)(path@),
{
    let label = match row.label {
        Label::Static(s) => s.to_owned(),
        Label::Basename => end_of(path),
        Label::Fn(LabelFn::SimulatorDevice) => simulator_device_label(path, disk),
        Label::Fn(LabelFn::ClaudeState(title)) => claude_state_label(title, path),
    };
    Claim::new(
        path.copy(),
        BASELINE_OWNER,
        row.kind,
        EvidenceTier::EcosystemDefault,
        row.evidence,
    ).label(label.as_str()).baseline(row.ecosystem)
}

/// The claims of a row that belongs to a whole ecosystem.
pub fn eval_baseline(row: &Baseline, env: &ResolveEnv, disk: &mut Disk) -> (r: Vec<Claim>)
    requires
        old(disk).wf(),
    ensures
        final(disk).asked(*old(disk)),
        final(disk).holds() ==> r.deep_view() == baseline_claims(row@, env@, old(disk)@),
{
    let ghost facts = disk@;
    let ghost want = baseline_claims(row@, env@, facts);
    let paths = find_baseline(row, env, disk);
    let ghost all = paths.deep_view();
    let mut out: Vec<Claim> = Vec::new();
    let mut i: usize = 0;
    assert(all.len() == paths.len());
    while i < paths.len()
        invariant
            i <= paths.len(),
            all == paths.deep_view(),
            facts == old(disk)@,
            disk.asked(*old(disk)),
            disk.holds() ==> want.len() == paths.len(),
            disk.holds()
                ==> want == Seq::new(all.len(), |i: int| shared_claim(row@, facts)(all[i])),
            disk.holds() ==> out.deep_view() =~= want.take(i as int),
        decreases paths.len() - i,
    {
        assert(all[i as int] == paths@[i as int]@);
        let c = baseline_claim(row, &paths[i], disk);
        put(&mut out, c);
        i = i + 1;
    }
    assert(disk.holds() ==> want.take(i as int) =~= want);
    out
}

/// The claims of one row, as a function of the row.
pub open spec fn claims_of_baseline(env: EnvView, disk: DiskView) -> spec_fn(BaselineView) -> Seq<
    ClaimView,
> {
    |row: BaselineView| baseline_claims(row, env, disk)
}

/// The claims of all rows that belong to whole ecosystems, row by row.
pub fn baselines(env: &ResolveEnv, disk: &mut Disk) -> (r: Vec<Claim>)
    requires
        old(disk).wf(),
    ensures
        final(disk).asked(*old(disk)),
        final(disk).holds()
            ==> r.deep_view() == flat(baseline_table(env@.agent), claims_of_baseline(env@, old(disk)@)),
{
    let ghost facts = disk@;
    let rows = baseline_rows(env.agent);
    let ghost all = rows.deep_view();
    let ghost f = claims_of_baseline(env@, facts);
    let mut out: Vec<Claim> = Vec::new();
    let mut i: usize = 0;
    proof {
        lemma_flat_start(all, f);
        assert(out.deep_view() =~= flat(all.take(0), f));
    }
    while i < rows.len()
        invariant
            i <= rows.len(),
            all == rows.deep_view(),
            facts == old(disk)@,
            f == claims_of_baseline(env@, facts),
            disk.asked(*old(disk)),
            disk.holds() ==> out.deep_view() == flat(all.take(i as int), f),
        decreases rows.len() - i,
    {
        proof {
            assert(all[i as int] == rows@[i as int]@);
            lemma_flat_step(all, f, i as int);
        }
        let more = eval_baseline(&rows[i], env, disk);
        put_all(&mut out, more);
        i = i + 1;
    }
    assert(all.take(i as int) =~= all);
    out
}

} // verus!
