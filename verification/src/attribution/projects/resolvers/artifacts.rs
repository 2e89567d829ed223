//! The working tree of a project and its build output, with the target directories of Cargo that
//! lie elsewhere.

use vstd::prelude::*;

use crate::attribution::model::{
    put, Claim, ClaimView, EntryKind, EnvView, EvidenceTier, ResolveEnv,
};
use crate::attribution::projects::{put_text, put_texts, Project, ProjectView};
use crate::disk::{Disk, DiskView};
use crate::doc::{field, json_document, parse_json, table_of, text_of, toml_document, Doc, DocView};
use crate::fspath::{child, file_name, path_text, under, FilePath};
use crate::seqs::{flat, lemma_filter_map_start, lemma_flat_start, lemma_flat_step};
use crate::text::{cat2, chars_of};

use super::apply::{find_in_subtree, found_manifests};
use super::common::{own, own_claim};
use super::parsers::{
    cargo_config_target_dir, config_target_dir, expand_target_dir, shell_default, target_dir,
    unwrap_shell_default,
};

verus! {

broadcast use crate::disk::group_asks;

/// How much of a file is read.
pub const MAX_FILE_BYTES: usize = 262144;

/// How deep below the root files with shell commands are looked for.
pub const SHELL_FILE_DEPTH: usize = 4;

/// An assignment to `CARGO_TARGET_DIR`; the second group is the value, without quotation marks.
pub const CARGO_TARGET_DIR_RE: &'static str = "CARGO_TARGET_DIR=([\"']?)([^\"'\\s;&|]+)";

/// What a group of a regular expression holds in each match in a text, one match behind the other;
/// nothing where the expression is none.
pub uninterp spec fn group_in_matches(
    pattern: Seq<char>,
    group: usize,
    text: Seq<char>,
) -> Option<Seq<Option<Seq<char>>>>;

/// What a group of a regular expression holds in each match in a text, as `regex::Regex::new` and
/// `regex::Regex::captures_iter` give it. It depends on the expression, the group and the text
/// alone. Which texts match is not stated.
#[verifier::external_body]
fn find_groups(pattern: &str, group: usize, text: &str) -> (r: Option<Vec<Option<String>>>)
    ensures
        r.deep_view() == group_in_matches(pattern@, group, text@),
{
    let re = regex::Regex::new(pattern).ok()?;
    Some(
        re.captures_iter(text)
            .map(|c| c.get(group).map(|m| m.as_str().to_string()))
            .collect(),
    )
}

/// The value in a match.
pub open spec fn matched_value() -> spec_fn(Option<Seq<char>>) -> Option<Seq<char>> {
    |m: Option<Seq<char>>|
        match m {
            Some(v) => Some(shell_default(v)),
            None => None,
        }
}

/// The values in the matches: of one that only stands in when the variable is not set, the default.
pub fn matched_values(found: &Vec<Option<String>>) -> (r: Vec<String>)
    ensures
        r.deep_view() == found.deep_view().filter_map(matched_value()),
{
    let ghost all = found.deep_view();
    let ghost pick = matched_value();
    let mut out: Vec<String> = Vec::new();
    let mut i: usize = 0;
    proof {
        lemma_filter_map_start(all, pick);
        assert(out.deep_view() =~= all.take(0).filter_map(pick));
    }
    while i < found.len()
        invariant
            i <= found.len(),
            all == found.deep_view(),
            pick == matched_value(),
            out.deep_view() == all.take(i as int).filter_map(pick),
        decreases found.len() - i,
    {
        proof {
            assert(all[i as int] == found@[i as int].deep_view());
            all.lemma_filter_map_take_succ(pick, i as int);
        }
        if let Some(v) = &found[i] {
            put_text(&mut out, unwrap_shell_default(chars_of(v.as_str()).as_slice()));
        }
        assert(out.deep_view() =~= all.take(i + 1).filter_map(pick));
        i = i + 1;
    }
    assert(all.take(i as int) =~= all);
    out
}

/// The values that a text gives `CARGO_TARGET_DIR`.
pub open spec fn assigned_dirs(text: Seq<char>) -> Seq<Seq<char>> {
    match group_in_matches(CARGO_TARGET_DIR_RE@, 2, text) {
        Some(found) => found.filter_map(matched_value()),
        None => seq![],
    }
}

/// The values that a text gives `CARGO_TARGET_DIR`, whatever quotation marks stand around them.
pub fn extract_cargo_target_dir(text: &str) -> (r: Vec<String>)
    ensures
        r.deep_view() == assigned_dirs(text@),
{
    match find_groups(CARGO_TARGET_DIR_RE, 2, text) {
        Some(found) => matched_values(&found),
        None => {
            let r: Vec<String> = Vec::new();
            assert(r.deep_view() =~= seq![]);
            r
        },
    }
}

/// The values that a script gives `CARGO_TARGET_DIR`.
pub open spec fn script_values() -> spec_fn((Seq<char>, DocView)) -> Seq<Seq<char>> {
    |e: (Seq<char>, DocView)|
        match text_of(Some(e.1)) {
            Some(s) => assigned_dirs(s),
            None => seq![],
        }
}

/// The values that the scripts of a `package.json` give `CARGO_TARGET_DIR`.
pub open spec fn scripts_values(d: DocView) -> Seq<Seq<char>> {
    match table_of(field(d, "scripts"@)) {
        Some(entries) => flat(entries, script_values()),
        None => seq![],
    }
}

fn values_in_scripts(d: &Doc) -> (r: Vec<String>)
    ensures
        r.deep_view() == scripts_values(d@),
{
    let mut out: Vec<String> = Vec::new();
    match d.entries("scripts") {
        Some(entries) => {
            let ghost all = entries.deep_view();
            let mut i: usize = 0;
            proof {
                lemma_flat_start(all, script_values());
                assert(out.deep_view() =~= flat(all.take(0), script_values()));
            }
            while i < entries.len()
                invariant
                    i <= entries.len(),
                    all == entries.deep_view(),
                    out.deep_view() == flat(all.take(i as int), script_values()),
                decreases entries.len() - i,
            {
                proof {
                    assert(all[i as int] == (entries@[i as int].0@, entries@[i as int].1@));
                    lemma_flat_step(all, script_values(), i as int);
                }
                let ghost was = out.deep_view();
                if let Some(s) = entries[i].1.as_str() {
                    put_texts(&mut out, extract_cargo_target_dir(s));
                }
                assert(out.deep_view() =~= was + script_values()(all[i as int]));
                i = i + 1;
            }
            assert(all.take(i as int) =~= all);
        },
        None => {
            assert(out.deep_view() =~= seq![]);
        },
    }
    out
}

/// The values that the scripts in the text of a `package.json` give `CARGO_TARGET_DIR`. The rest of
/// the file does not count.
pub fn cargo_target_dirs_in_package_json_scripts(text: &str) -> (r: Vec<String>)
    ensures
        r.deep_view() == (match json_document(text@) {
            Some(d) => scripts_values(d),
            None => seq![],
        }),
{
    match parse_json(text) {
        Some(d) => values_in_scripts(&d),
        None => {
            let r: Vec<String> = Vec::new();
            assert(r.deep_view() =~= seq![]);
            r
        },
    }
}

/// The claim on a target directory.
pub open spec fn target_claim(p: ProjectView, path: Seq<Seq<char>>, evidence: Seq<char>) -> ClaimView {
    own(
        path,
        path_text(p.root),
        EntryKind::Artifacts,
        EvidenceTier::Exact,
        evidence,
        match file_name(path) {
            Some(n) => n,
            None => "target"@,
        },
    ).tagged("rust"@)
}

fn target_dir_claim(owner: &str, path: FilePath, evidence: &str) -> (r: Claim)
    ensures
        forall|p: ProjectView|
            path_text(p.root) == owner@ ==> r@ == #[trigger] target_claim(p, path@, evidence@),
{
    let label = match path.file_name() {
        Some(n) => n.to_owned(),
        None => "target".to_owned(),
    };
    own_claim(
        path,
        owner,
        EntryKind::Artifacts,
        EvidenceTier::Exact,
        evidence,
        label.as_str(),
    ).ecosystem("rust")
}

/// The claims on the target directories that values name.
pub open spec fn values_claims(
    p: ProjectView,
    home: Seq<Seq<char>>,
    values: Seq<Seq<char>>,
    evidence: Seq<char>,
) -> Seq<ClaimView> {
    Seq::new(
        values.len(),
        |i: int| target_claim(p, target_dir(values[i], home, p.root), evidence),
    )
}

fn put_values(
    project: &Project,
    home: &FilePath,
    values: &Vec<String>,
    evidence: &str,
    out: &mut Vec<Claim>,
)
    ensures
        final(out).deep_view() == old(out).deep_view() + values_claims(
            project@,
            home@,
            values.deep_view(),
            evidence@,
        ),
{
    let ghost was = out.deep_view();
    let ghost vs = values.deep_view();
    let ghost want = values_claims(project@, home@, vs, evidence@);
    let owner = project.root.text();
    let mut i: usize = 0;
    assert(out.deep_view() =~= was + want.take(0));
    while i < values.len()
        invariant
            i <= values.len(),
            vs == values.deep_view(),
            owner@ == path_text(project@.root),
            want == values_claims(project@, home@, vs, evidence@),
            out.deep_view() =~= was + want.take(i as int),
        decreases values.len() - i,
    {
        assert(vs[i as int] == values@[i as int]@);
        let path = expand_target_dir(values[i].as_str(), home, &project.root);
        let c = target_dir_claim(owner.as_str(), path, evidence);
        assert(c@ == target_claim(project@, path@, evidence@));
        assert(want[i as int] == c@);
        put(out, c);
        i = i + 1;
    }
    assert(want.take(i as int) =~= want);
}

/// The names of files with shell commands.
pub open spec fn shell_files() -> Seq<&'static str> {
    seq!["Makefile", "justfile", ".env", ".env.*", "*.sh"]
}

/// The files with shell commands in a project, hidden directories and those with build output left
/// out, in the order of their paths.
pub fn candidate_shell_files(root: &FilePath, env: &ResolveEnv, disk: &mut Disk) -> (r: Vec<FilePath>)
    requires
        old(disk).wf(),
    ensures
        final(disk).asked(*old(disk)),
        final(disk).holds() ==> r.deep_view() == found_manifests(
            env@,
            old(disk)@,
            root@,
            shell_files(),
            SHELL_FILE_DEPTH as nat,
        ),
{
    let names = vec!["Makefile", "justfile", ".env", ".env.*", "*.sh"];
    assert(names@ =~= shell_files());
    find_in_subtree(root, &names, SHELL_FILE_DEPTH, env, disk)
}

/// A path from the project's root, where it lies in it.
pub open spec fn from_root(root: Seq<Seq<char>>, path: Seq<Seq<char>>) -> Seq<char> {
    if under(path, root) {
        path_text(path.skip(root.len() as int))
    } else {
        path_text(path)
    }
}

fn text_from_root(root: &FilePath, path: &FilePath) -> (r: String)
    ensures
        r@ == from_root(root@, path@),
{
    match path.strip_prefix(root) {
        Some(rel) => rel.text(),
        None => path.text(),
    }
}

/// The claims for the values in the file at a path.
pub open spec fn shell_claims(p: ProjectView, home: Seq<Seq<char>>, disk: DiskView) -> spec_fn(
    Seq<Seq<char>>,
) -> Seq<ClaimView> {
    |path: Seq<Seq<char>>|
        match disk.head(path, MAX_FILE_BYTES) {
            Some(text) => values_claims(
                p,
                home,
                assigned_dirs(text),
                "CARGO_TARGET_DIR in "@ + from_root(p.root, path),
            ),
            None => seq![],
        }
}

/// The claim for the `target-dir` in `.cargo/config.toml`.
pub open spec fn config_claims(p: ProjectView, home: Seq<Seq<char>>, disk: DiskView) -> Seq<ClaimView> {
    match disk.head(child(p.root, ".cargo/config.toml"@), MAX_FILE_BYTES) {
        Some(text) => match toml_document(text) {
            Some(d) => match config_target_dir(d) {
                Some(v) => values_claims(p, home, seq![v], "target-dir in .cargo/config.toml"@),
                None => seq![],
            },
            None => seq![],
        },
        None => seq![],
    }
}

/// The claims for the values in the scripts of `package.json`.
pub open spec fn scripts_claims(p: ProjectView, home: Seq<Seq<char>>, disk: DiskView) -> Seq<ClaimView> {
    match disk.head(child(p.root, "package.json"@), MAX_FILE_BYTES) {
        Some(text) => match json_document(text) {
            Some(d) => values_claims(
                p,
                home,
                scripts_values(d),
                "CARGO_TARGET_DIR in package.json"@,
            ),
            None => seq![],
        },
        None => seq![],
    }
}

/// The claims on the target directories that a project sends its build output to.
pub open spec fn redirected_claims(p: ProjectView, env: EnvView, disk: DiskView) -> Seq<ClaimView> {
    config_claims(p, env.home, disk) + scripts_claims(p, env.home, disk) + flat(
        found_manifests(env, disk, p.root, shell_files(), SHELL_FILE_DEPTH as nat),
        shell_claims(p, env.home, disk),
    )
}

fn put_config_claims(project: &Project, env: &ResolveEnv, disk: &mut Disk, out: &mut Vec<Claim>)
    requires
        old(disk).wf(),
    ensures
        final(disk).asked(*old(disk)),
        final(disk).holds() ==> final(out).deep_view() == old(out).deep_view() + config_claims(
            project@,
            env@.home,
            old(disk)@,
        ),
{
    let mut values: Vec<String> = Vec::new();
    assert(values.deep_view() =~= seq![]);
    if let Some(text) = env.read_head(
        disk,
        &project.root.child(".cargo/config.toml"),
        MAX_FILE_BYTES,
    ) {
        if let Some(v) = cargo_config_target_dir(text.as_str()) {
            put_text(&mut values, v);
            assert(values.deep_view() =~= seq![v@]);
        }
    }
    let ghost vs = values.deep_view();
    put_values(project, &env.home, &values, "target-dir in .cargo/config.toml", out);
    assert(vs.len() == 0 ==> values_claims(
        project@,
        env@.home,
        vs,
        "target-dir in .cargo/config.toml"@,
    ) =~= seq![]);
}

fn put_scripts_claims(project: &Project, env: &ResolveEnv, disk: &mut Disk, out: &mut Vec<Claim>)
    requires
        old(disk).wf(),
    ensures
        final(disk).asked(*old(disk)),
        final(disk).holds() ==> final(out).deep_view() == old(out).deep_view() + scripts_claims(
            project@,
            env@.home,
            old(disk)@,
        ),
{
    let evidence = "CARGO_TARGET_DIR in package.json";
    match env.read_head(disk, &project.root.child("package.json"), MAX_FILE_BYTES) {
        Some(text) => {
            let values = cargo_target_dirs_in_package_json_scripts(text.as_str());
            put_values(project, &env.home, &values, evidence, out);
            assert(values_claims(project@, env@.home, seq![], evidence@) =~= seq![]);
        },
        None => {
            assert(out.deep_view() =~= out.deep_view() + Seq::<ClaimView>::empty());
        },
    }
}

fn put_shell_claims(
    project: &Project,
    path: &FilePath,
    env: &ResolveEnv,
    disk: &mut Disk,
    out: &mut Vec<Claim>,
)
    requires
        old(disk).wf(),
    ensures
        final(disk).asked(*old(disk)),
        final(disk).holds() ==> final(out).deep_view() == old(out).deep_view() + shell_claims(
            project@,
            env@.home,
            old(disk)@,
        )(path@),
{
    let name = text_from_root(&project.root, path);
    let evidence = cat2("CARGO_TARGET_DIR in ", name.as_str());
    match env.read_head(disk, path, MAX_FILE_BYTES) {
        Some(text) => {
            let values = extract_cargo_target_dir(text.as_str());
            put_values(project, &env.home, &values, evidence.as_str(), out);
        },
        None => {
            assert(out.deep_view() =~= out.deep_view() + Seq::<ClaimView>::empty());
        },
    }
}

/// The claims on the target directories that a project sends its build output to: in
/// `.cargo/config.toml`, in the scripts of `package.json`, and in files with shell commands.
pub fn cargo_target_dir_claims(project: &Project, env: &ResolveEnv, disk: &mut Disk) -> (r: Vec<Claim>)
    requires
        old(disk).wf(),
    ensures
        final(disk).asked(*old(disk)),
        final(disk).holds() ==> r.deep_view() == redirected_claims(project@, env@, old(disk)@),
{
    let ghost facts = disk@;
    let mut out: Vec<Claim> = Vec::new();
    put_config_claims(project, env, disk, &mut out);
    put_scripts_claims(project, env, disk, &mut out);
    let ghost was = out.deep_view();
    assert(disk.holds() ==> was =~= config_claims(project@, env@.home, facts) + scripts_claims(
        project@,
        env@.home,
        facts,
    ));
    let files = candidate_shell_files(&project.root, env, disk);
    let ghost all = files.deep_view();
    let ghost f = shell_claims(project@, env@.home, facts);
    let mut i: usize = 0;
    proof {
        lemma_flat_start(all, f);
        assert(out.deep_view() =~= was + flat(all.take(0), f));
    }
    let ghost start = *disk;
    while i < files.len()
        invariant
            i <= files.len(),
            all == files.deep_view(),
            facts == old(disk)@,
            disk.asked(*old(disk)),
            disk.holds() ==> start.holds(),
            f == shell_claims(project@, env@.home, facts),
            disk.holds() ==> out.deep_view() == was + flat(all.take(i as int), f),
        decreases files.len() - i,
    {
        proof {
            assert(all[i as int] == files@[i as int]@);
            lemma_flat_step(all, f, i as int);
        }
        put_shell_claims(project, &files[i], env, disk, &mut out);
        assert(disk.holds() ==> out.deep_view() =~= was + flat(all.take(i + 1), f));
        i = i + 1;
    }
    assert(all.take(i as int) =~= all);
    out
}

/// The claims of a project on its working tree, its other checkouts, the build output in them, and
/// the target directories of Cargo that lie elsewhere.
pub fn resolve(project: &Project, env: &ResolveEnv, disk: &mut Disk) -> (r: Vec<Claim>)
    requires
        old(disk).wf(),
    ensures
        final(disk).asked(*old(disk)),
        final(disk).holds() ==> r.deep_view() == super::joins::artifact_claims(
            project@,
            env@,
            old(disk)@,
        ),
{
    super::joins::artifacts(project, env, disk)
}

} // verus!
