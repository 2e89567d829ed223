//! The evaluation of the rules that lead from entries of the home directory to projects.

use vstd::prelude::*;

use crate::attribution::model::{
    plain_claim, put, put_all, Claim, ClaimView, EvidenceTier, ResolveEnv, UNATTRIBUTED_OWNER,
};
use crate::attribution::paths::{canonical, from_file_uri, tree_path, uri_target};
use crate::attribution::projects::{
    opt_project, owner_in, put_path, Project, ProjectIndex, ProjectView,
};
use crate::disk::{Disk, DiskView, Listed, NodeKind};
use crate::doc::{field, json_document, parse_json, text_of, Doc, DocView};
use crate::fspath::{
    child, dot, dot_dot, extension, extension_of, file_name, is_absolute, joined, parent, path_of,
    path_text, root, FilePath,
};
use crate::scan::{Finding, FindingId, FindingKind, FindingView, ScannerId};
use crate::seqs::{
    first_some, flat, lemma_filter_map_start, lemma_first_some_step, lemma_flat_start,
    lemma_flat_step,
};
use crate::text::{
    after_last, cat2, chars_of, find_last, same, starts, str_starts, string_of,
};
use vstd::slice::slice_subrange;

use super::apply::{excluded, expand_templates, is_excluded, tagged_with, template_paths};
use super::derive::{
    container_bundle_id, container_extract, end_name, end_of, plist_text, read_plist_text,
    Extracted, ExtractedView,
};
use super::parsers::{cwd_in, encode_claude_project_dir, encoded_dir, extract_cwd};
use super::rules::{
    reverse_rows, reverse_table, ClaimAt, Extract, ExtractView, Extractor, Matcher, ReverseLink,
    ReverseLinkView, Scan, ScanView, MANIFEST_CAP,
};
use super::templates::{
    filled, files_below, first_of, glob_match, matches_glob, substitute, walk_files,
};

verus! {

broadcast use crate::disk::group_asks;

/// The path of a directory whose name does not make it skipped.
pub open spec fn scanned_dir(skip: Seq<&'static str>, dir: Seq<Seq<char>>) -> spec_fn(
    (Seq<char>, NodeKind),
) -> Option<Seq<Seq<char>>> {
    |e: (Seq<char>, NodeKind)|
        if e.1 == NodeKind::Dir && !excluded(skip, e.0) {
            Some(child(dir, e.0))
        } else {
            None
        }
}

/// The directories in a directory, without those that are skipped.
pub open spec fn scanned_in(disk: DiskView, skip: Seq<&'static str>) -> spec_fn(
    Seq<Seq<char>>,
) -> Seq<Seq<Seq<char>>> {
    |dir: Seq<Seq<char>>|
        match disk.list(dir) {
            Some(entries) => entries.filter_map(scanned_dir(skip, dir)),
            None => seq![],
        }
}

/// The directories exactly `depth` levels below these.
pub open spec fn dirs_at_depth(
    disk: DiskView,
    skip: Seq<&'static str>,
    dirs: Seq<Seq<Seq<char>>>,
    depth: nat,
) -> Seq<Seq<Seq<char>>>
    decreases depth,
{
    if depth == 0 {
        dirs
    } else {
        dirs_at_depth(disk, skip, flat(dirs, scanned_in(disk, skip)), (depth - 1) as nat)
    }
}

/// The paths that templates stand for.
pub open spec fn root_paths(disk: DiskView, home: Seq<Seq<char>>, roots: Seq<&'static str>) -> Seq<
    Seq<Seq<char>>,
> {
    flat(roots, template_paths(disk, home, seq![]))
}

/// The file, if its name has the form.
pub open spec fn named_like(name: Option<&'static str>) -> spec_fn(Seq<Seq<char>>) -> Option<
    Seq<Seq<char>>,
> {
    |p: Seq<Seq<char>>|
        match name {
            Some(pattern) => if file_name(p) is Some && matches_glob(pattern@, file_name(p)->0) {
                Some(p)
            } else {
                None
            },
            None => Some(p),
        }
}

/// The entries that a rule looks at.
pub open spec fn scanned(scan: ScanView, disk: DiskView, home: Seq<Seq<char>>) -> Seq<
    Seq<Seq<char>>,
> {
    match scan {
        ScanView::Dirs { roots, depth, skip } => dirs_at_depth(
            disk,
            skip,
            root_paths(disk, home, roots),
            depth as nat,
        ),
        ScanView::Files { roots, name, cap } => first_of(
            files_below(disk, root_paths(disk, home, roots), u64::MAX as nat),
            cap as nat,
        ).filter_map(named_like(name)),
    }
}

fn put_scanned(disk: &mut Disk, dir: &FilePath, skip: &Vec<&'static str>, out: &mut Vec<FilePath>)
    requires
        old(disk).wf(),
    ensures
        final(disk).asked(*old(disk)),
        final(disk).holds()
            ==> final(out).deep_view() == old(out).deep_view() + scanned_in(old(disk)@, skip@)(dir@),
{
    let ghost was = out.deep_view();
    match disk.list(dir) {
        Some(entries) => {
            let ghost all = entries.deep_view();
            let ghost pick = scanned_dir(skip@, dir@);
            let mut i: usize = 0;
            proof {
                lemma_filter_map_start(all, pick);
                assert(out.deep_view() =~= was + all.take(0).filter_map(pick));
            }
            while i < entries.len()
                invariant
                    i <= entries.len(),
                    all == entries.deep_view(),
                    pick == scanned_dir(skip@, dir@),
                    disk.holds() ==> out.deep_view() == was + all.take(i as int).filter_map(pick),
                decreases entries.len() - i,
            {
                proof {
                    assert(all[i as int] == entries@[i as int].deep_view());
                    all.lemma_filter_map_take_succ(pick, i as int);
                }
                if entries[i].kind == NodeKind::Dir && !is_excluded(
                    skip,
                    entries[i].name.as_str(),
                ) {
                    put_path(out, dir.child(entries[i].name.as_str()));
                }
                assert(disk.holds() ==> out.deep_view() =~= was + all.take(i + 1).filter_map(pick));
                i = i + 1;
            }
            assert(all.take(i as int) =~= all);
        },
        None => {
            assert(disk.holds() ==> out.deep_view() =~= was + scanned_in(old(disk)@, skip@)(dir@));
        },
    }
}

fn scan_level(disk: &mut Disk, dirs: &Vec<FilePath>, skip: &Vec<&'static str>) -> (r: Vec<FilePath>)
    requires
        old(disk).wf(),
    ensures
        final(disk).asked(*old(disk)),
        final(disk).holds()
            ==> r.deep_view() == flat(dirs.deep_view(), scanned_in(old(disk)@, skip@)),
{
    let ghost facts = disk@;
    let ghost all = dirs.deep_view();
    let ghost f = scanned_in(facts, skip@);
    let mut out: Vec<FilePath> = Vec::new();
    let mut i: usize = 0;
    proof {
        lemma_flat_start(all, f);
        assert(out.deep_view() =~= flat(all.take(0), f));
    }
    while i < dirs.len()
        invariant
            i <= dirs.len(),
            all == dirs.deep_view(),
            facts == old(disk)@,
            f == scanned_in(facts, skip@),
            disk.asked(*old(disk)),
            disk.holds() ==> out.deep_view() == flat(all.take(i as int), f),
        decreases dirs.len() - i,
    {
        proof {
            assert(all[i as int] == dirs@[i as int]@);
            lemma_flat_step(all, f, i as int);
        }
        put_scanned(disk, &dirs[i], skip, &mut out);
        i = i + 1;
    }
    assert(all.take(i as int) =~= all);
    out
}

fn expand_roots(roots: &Vec<&'static str>, home: &FilePath, disk: &mut Disk) -> (r: Vec<FilePath>)
    requires
        old(disk).wf(),
    ensures
        final(disk).asked(*old(disk)),
        final(disk).holds() ==> r.deep_view() == root_paths(old(disk)@, home@, roots@),
{
    let tokens: Vec<(&'static str, String)> = Vec::new();
    assert(tokens.deep_view() =~= seq![]);
    expand_templates(roots, &tokens, home, disk)
}

/// The directories that a rule looks at.
pub fn scan_dirs(
    roots: &Vec<&'static str>,
    depth: usize,
    skip: &Vec<&'static str>,
    home: &FilePath,
    disk: &mut Disk,
) -> (r: Vec<FilePath>)
    requires
        old(disk).wf(),
    ensures
        final(disk).asked(*old(disk)),
        final(disk).holds() ==> r.deep_view() == scanned(
            (ScanView::Dirs { roots: roots@, depth, skip: skip@ }),
            old(disk)@,
            home@,
        ),
{
    let ghost facts = disk@;
    let mut level = expand_roots(roots, home, disk);
    let ghost want = dirs_at_depth(facts, skip@, level.deep_view(), depth as nat);
    let mut left: usize = depth;
    let ghost start = *disk;
    while left > 0
        invariant
            facts == old(disk)@,
            disk.asked(*old(disk)),
            disk.holds() ==> start.holds(),
            disk.holds() ==> dirs_at_depth(facts, skip@, level.deep_view(), left as nat) == want,
        decreases left,
    {
        level = scan_level(disk, &level, skip);
        left = left - 1;
    }
    level
}

/// The files that a rule looks at.
pub fn scan_files(
    roots: &Vec<&'static str>,
    name: Option<&'static str>,
    cap: usize,
    home: &FilePath,
    disk: &mut Disk,
) -> (r: Vec<FilePath>)
    requires
        old(disk).wf(),
    ensures
        final(disk).asked(*old(disk)),
        final(disk).holds() ==> r.deep_view() == scanned(
            (ScanView::Files { roots: roots@, name, cap }),
            old(disk)@,
            home@,
        ),
{
    let dirs = expand_roots(roots, home, disk);
    let files = walk_files(disk, dirs, cap);
    let ghost all = files.deep_view();
    let ghost pick = named_like(name);
    let mut out: Vec<FilePath> = Vec::new();
    let mut i: usize = 0;
    proof {
        lemma_filter_map_start(all, pick);
        assert(out.deep_view() =~= all.take(0).filter_map(pick));
    }
    while i < files.len()
        invariant
            i <= files.len(),
            all == files.deep_view(),
            pick == named_like(name),
            disk.holds() ==> out.deep_view() == all.take(i as int).filter_map(pick),
        decreases files.len() - i,
    {
        proof {
            assert(all[i as int] == files@[i as int]@);
            all.lemma_filter_map_take_succ(pick, i as int);
        }
        let fits = match name {
            Some(pattern) => match files[i].file_name() {
                Some(n) => glob_match(pattern, n),
                None => false,
            },
            None => true,
        };
        if fits {
            put_path(&mut out, files[i].copy());
        }
        assert(disk.holds() ==> out.deep_view() =~= all.take(i + 1).filter_map(pick));
        i = i + 1;
    }
    assert(all.take(i as int) =~= all);
    out
}

/// What a text names.
pub open spec fn names_text(text: Seq<char>) -> ExtractedView {
    ExtractedView { path: path_of(text), text, label_extra: None }
}

/// The path of a session file.
pub open spec fn session_file(dir: Seq<Seq<char>>) -> spec_fn((Seq<char>, NodeKind)) -> Option<
    Seq<Seq<char>>,
> {
    |e: (Seq<char>, NodeKind)|
        if extension_of(e.0) == Some("jsonl"@) {
            Some(child(dir, e.0))
        } else {
            None
        }
}

/// The working directory that a file gives.
pub open spec fn cwd_at(disk: DiskView, head: usize) -> spec_fn(Seq<Seq<char>>) -> Option<Seq<char>> {
    |p: Seq<Seq<char>>|
        match disk.head(p, head) {
            Some(text) => cwd_in(text),
            None => None,
        }
}

/// The working directory of the sessions in a directory, by its first session files.
pub open spec fn dir_cwd(
    disk: DiskView,
    dir: Seq<Seq<char>>,
    max_files: nat,
    head: usize,
) -> Option<Seq<char>> {
    match disk.list(dir) {
        Some(entries) => first_some(
            first_of(entries.filter_map(session_file(dir)), max_files),
            cwd_at(disk, head),
        ),
        None => None,
    }
}

/// The working directory of the sessions in a directory, or of a session file.
pub open spec fn session_cwd(
    disk: DiskView,
    entry: Seq<Seq<char>>,
    max_files: nat,
    head: usize,
) -> Option<Seq<char>> {
    if disk.is_dir(entry) {
        dir_cwd(disk, entry, max_files, head)
    } else {
        cwd_at(disk, head)(entry)
    }
}

/// What an entry names.
pub open spec fn extracted(how: ExtractView, entry: Seq<Seq<char>>, disk: DiskView) -> Option<
    ExtractedView,
> {
    match how {
        ExtractView::PlistKey { file, key } => match plist_text(disk, child(entry, file@), key@) {
            Some(s) => Some(names_text(s)),
            None => None,
        },
        ExtractView::JsonUri { file, keys } => match disk.head(child(entry, file@), MANIFEST_CAP) {
            Some(text) => match json_document(text) {
                Some(d) => uri_extract(d, keys),
                None => None,
            },
            None => None,
        },
        ExtractView::JsonlCwd { max_files, head } => match session_cwd(
            disk,
            entry,
            max_files as nat,
            head,
        ) {
            Some(s) => Some(names_text(s)),
            None => None,
        },
        ExtractView::SymlinkTargets { subdir: _ } => None,
        ExtractView::Fn(Extractor::ContainerBundleId) => container_extract(disk, entry),
    }
}

/// What stands under a key of a document.
pub open spec fn value_under(d: DocView) -> spec_fn(&'static str) -> Option<DocView> {
    |k: &'static str| field(d, k@)
}

/// What the first of the keys that a document has names: it is read as a `file://` URI, and no
/// later key counts.
pub open spec fn uri_extract(d: DocView, keys: Seq<&'static str>) -> Option<ExtractedView> {
    match text_of(first_some(keys, value_under(d))) {
        Some(uri) => match uri_target(uri) {
            Some(p) => Some(ExtractedView { path: p, text: path_text(p), label_extra: None }),
            None => None,
        },
        None => None,
    }
}

/// What the first of the keys that a parsed document has names, as a `file://` URI.
pub fn extract_uri(d: &Doc, keys: &Vec<&'static str>) -> (r: Option<Extracted>)
    ensures
        r.deep_view() == uri_extract(d@, keys@),
{
    let ghost f = value_under(d@);
    let mut i: usize = 0;
    assert(keys@.skip(0) =~= keys@);
    while i < keys.len()
        invariant
            i <= keys.len(),
            f == value_under(d@),
            first_some(keys@, f) == first_some(keys@.skip(i as int), f),
        decreases keys.len() - i,
    {
        proof {
            lemma_first_some_step(keys@, f, i as int);
        }
        if let Some(value) = d.get(keys[i]) {
            if let Some(uri) = value.as_str() {
                if let Some(path) = from_file_uri(uri) {
                    let text = path.text();
                    return Some(Extracted { path, text, label_extra: None });
                }
            }
            return None;
        }
        i = i + 1;
    }
    None
}

fn session_files(entries: &Vec<Listed>, dir: &FilePath, max_files: usize) -> (r: Vec<FilePath>)
    ensures
        r.deep_view() == first_of(
            entries.deep_view().filter_map(session_file(dir@)),
            max_files as nat,
        ),
{
    let ghost all = entries.deep_view();
    let ghost pick = session_file(dir@);
    let mut out: Vec<FilePath> = Vec::new();
    let mut i: usize = 0;
    proof {
        lemma_filter_map_start(all, pick);
        assert(out.deep_view() =~= all.take(0).filter_map(pick));
    }
    while i < entries.len()
        invariant
            i <= entries.len(),
            all == entries.deep_view(),
            pick == session_file(dir@),
            out.deep_view() == all.take(i as int).filter_map(pick),
        decreases entries.len() - i,
    {
        proof {
            assert(all[i as int] == entries@[i as int].deep_view());
            all.lemma_filter_map_take_succ(pick, i as int);
        }
        let name = entries[i].name.as_str();
        let fits = match extension(name) {
            Some(e) => same(e.as_str(), "jsonl"),
            None => false,
        };
        if fits {
            put_path(&mut out, dir.child(name));
        }
        assert(out.deep_view() =~= all.take(i + 1).filter_map(pick));
        i = i + 1;
    }
    assert(all.take(i as int) =~= all);
    let ghost got = out.deep_view();
    assert(got.len() == out.len());
    if out.len() > max_files {
        out.truncate(max_files);
        assert(out.deep_view() =~= got.take(max_files as int));
    }
    out
}

pub(crate) fn read_cwd(path: &FilePath, head: usize, env: &ResolveEnv, disk: &mut Disk) -> (r: Option<String>)
    requires
        old(disk).wf(),
    ensures
        final(disk).asked(*old(disk)),
        final(disk).holds() ==> r.deep_view() == cwd_at(old(disk)@, head)(path@),
{
    match env.read_head(disk, path, head) {
        Some(text) => extract_cwd(text.as_str()),
        None => None,
    }
}

fn read_session_cwd(
    entry: &FilePath,
    max_files: usize,
    head: usize,
    env: &ResolveEnv,
    disk: &mut Disk,
) -> (r: Option<String>)
    requires
        old(disk).wf(),
    ensures
        final(disk).asked(*old(disk)),
        final(disk).holds()
            ==> r.deep_view() == session_cwd(old(disk)@, entry@, max_files as nat, head),
{
    if disk.is_dir(entry) {
        read_dir_cwd(entry, max_files, head, env, disk)
    } else {
        read_cwd(entry, head, env, disk)
    }
}

pub(crate) fn read_dir_cwd(
    dir: &FilePath,
    max_files: usize,
    head: usize,
    env: &ResolveEnv,
    disk: &mut Disk,
) -> (r: Option<String>)
    requires
        old(disk).wf(),
    ensures
        final(disk).asked(*old(disk)),
        final(disk).holds() ==> r.deep_view() == dir_cwd(old(disk)@, dir@, max_files as nat, head),
{
    let ghost facts = disk@;
    let files = match disk.list(dir) {
        Some(entries) => session_files(&entries, dir, max_files),
        None => {
            return None;
        },
    };
    let ghost all = files.deep_view();
    let ghost f = cwd_at(facts, head);
    let mut i: usize = 0;
    assert(all.skip(0) =~= all);
    while i < files.len()
        invariant
            i <= files.len(),
            all == files.deep_view(),
            facts == old(disk)@,
            f == cwd_at(facts, head),
            disk.asked(*old(disk)),
            disk.holds()
                ==> dir_cwd(facts, dir@, max_files as nat, head) == first_some(all.skip(i as int), f),
        decreases files.len() - i,
    {
        proof {
            assert(all[i as int] == files@[i as int]@);
            lemma_first_some_step(all, f, i as int);
        }
        let cwd = read_cwd(&files[i], head, env, disk);
        if cwd.is_some() {
            return cwd;
        }
        i = i + 1;
    }
    None
}

fn named(text: String) -> (r: Extracted)
    ensures
        r@ == names_text(text@),
{
    Extracted { path: FilePath::from_text(text.as_str()), text, label_extra: None }
}

/// What an entry names, if it names anything.
pub fn extract_one(how: &Extract, entry: &FilePath, env: &ResolveEnv, disk: &mut Disk) -> (r: Option<
    Extracted,
>)
    requires
        old(disk).wf(),
    ensures
        final(disk).asked(*old(disk)),
        final(disk).holds() ==> r.deep_view() == extracted(how@, entry@, old(disk)@),
{
    match how {
        Extract::PlistKey { file, key } => match read_plist_text(disk, &entry.child(*file), *key) {
            Some(s) => Some(named(s)),
            None => None,
        },
        Extract::JsonUri { file, keys } => match env.read_head(
            disk,
            &entry.child(*file),
            MANIFEST_CAP,
        ) {
            Some(text) => match parse_json(text.as_str()) {
                Some(d) => extract_uri(&d, keys),
                None => None,
            },
            None => None,
        },
        Extract::JsonlCwd { max_files, head } => match read_session_cwd(
            entry,
            *max_files,
            *head,
            env,
            disk,
        ) {
            Some(s) => Some(named(s)),
            None => None,
        },
        Extract::SymlinkTargets { subdir: _ } => None,
        Extract::Fn(Extractor::ContainerBundleId) => container_bundle_id(entry, disk),
    }
}

/// What is claimed of an entry.
pub open spec fn claimed_at(entry: Seq<Seq<char>>, at: ClaimAt) -> Seq<Seq<char>> {
    match at {
        ClaimAt::Entry => entry,
        ClaimAt::Parent => match parent(entry) {
            Some(p) => p,
            None => entry,
        },
    }
}

fn claim_at(entry: &FilePath, at: ClaimAt) -> (r: FilePath)
    ensures
        r@ == claimed_at(entry@, at),
{
    match at {
        ClaimAt::Entry => entry.copy(),
        ClaimAt::Parent => match entry.parent() {
            Some(p) => p,
            None => entry.copy(),
        },
    }
}

/// A name without the hash behind its last dash.
pub open spec fn without_hash(name: Seq<char>) -> Seq<char> {
    if after_last(name, '-') > 0 {
        name.take(after_last(name, '-') - 1)
    } else {
        name
    }
}

/// The tokens of a claim on an entry.
pub open spec fn link_tokens(path: Seq<Seq<char>>, bundle_id: Seq<char>, device: Seq<char>) -> Seq<
    (Seq<char>, Seq<char>),
> {
    seq![
        ("basename"@, without_hash(end_name(path))),
        ("bundle_id"@, bundle_id),
        ("device"@, device),
    ]
}

fn reverse_tokens(claim_path: &FilePath, bundle_id: &str, device: &str) -> (r: Vec<
    (&'static str, String),
>)
    ensures
        r.deep_view() == link_tokens(claim_path@, bundle_id@, device@),
{
    let name = end_of(claim_path);
    let c = chars_of(name.as_str());
    let k = find_last(c.as_slice(), '-');
    let base = if k > 0 {
        let s = slice_subrange(c.as_slice(), 0, k - 1);
        assert(s@ =~= name@.take(k - 1));
        string_of(s)
    } else {
        name
    };
    let mut out: Vec<(&'static str, String)> = Vec::new();
    out.push(("basename", base));
    out.push(("bundle_id", bundle_id.to_owned()));
    out.push(("device", device.to_owned()));
    assert(out.deep_view() =~= link_tokens(claim_path@, bundle_id@, device@));
    out
}

/// A text or none.
pub open spec fn or_empty(s: Option<Seq<char>>) -> Seq<char> {
    match s {
        Some(x) => x,
        None => seq![],
    }
}

/// The claim of a project on an entry.
pub open spec fn link_claim(
    row: ReverseLinkView,
    entry: Seq<Seq<char>>,
    root: Seq<Seq<char>>,
    device: Option<Seq<char>>,
    bundle_id: Seq<char>,
) -> ClaimView {
    let path = claimed_at(entry, row.claim);
    let tokens = link_tokens(path, bundle_id, or_empty(device));
    tagged_with(
        plain_claim(
            path,
            path_text(root),
            row.kind,
            row.tier,
            filled(row.evidence@, tokens),
        ).labelled(filled(row.label@, tokens)),
        row.ecosystem,
    )
}

fn build_reverse_claim(
    row: &ReverseLink,
    entry: &FilePath,
    root: &FilePath,
    device: &Option<String>,
    bundle_id: &str,
) -> (r: Claim)
    ensures
        r@ == link_claim(row@, entry@, root@, device.deep_view(), bundle_id@),
{
    let path = claim_at(entry, row.claim);
    let owner = root.text();
    let d = match device {
        Some(d) => d.clone(),
        None => String::new(),
    };
    assert(d@ =~= or_empty(device.deep_view()));
    let tokens = reverse_tokens(&path, bundle_id, d.as_str());
    let evidence = substitute(row.evidence, &tokens);
    let label = substitute(row.label, &tokens);
    let mut claim = Claim::new(
        path,
        owner.as_str(),
        row.kind,
        row.tier,
        evidence.as_str(),
    ).label(label.as_str());
    if let Some(eco) = row.ecosystem {
        claim = claim.ecosystem(eco);
    }
    claim
}

/// The evidence where what an entry names is gone.
pub open spec fn stale_evidence(row: ReverseLinkView) -> Seq<char> {
    match row.stale {
        Some(s) => s@,
        None => seq![],
    }
}

/// The claim on an entry whose project is gone.
pub open spec fn stale_claim(row: ReverseLinkView, entry: Seq<Seq<char>>, gone: Seq<Seq<char>>) -> ClaimView {
    let path = claimed_at(entry, row.claim);
    let tokens = link_tokens(path, seq![], seq![]).push(("path"@, path_text(gone)));
    plain_claim(
        path,
        UNATTRIBUTED_OWNER@,
        row.kind,
        EvidenceTier::Observed,
        filled(stale_evidence(row), tokens),
    ).labelled(filled(row.label@, tokens)).gone()
}

fn build_stale_claim(row: &ReverseLink, entry: &FilePath, gone: &FilePath) -> (r: Claim)
    ensures
        r@ == stale_claim(row@, entry@, gone@),
{
    let path = claim_at(entry, row.claim);
    proof {
        reveal_strlit("");
        assert(""@ =~= seq![]);
    }
    let mut tokens = reverse_tokens(&path, "", "");
    let ghost was = tokens.deep_view();
    tokens.push(("path", gone.text()));
    assert(tokens.deep_view() =~= was.push(("path"@, path_text(gone@))));
    let evidence = match row.stale {
        Some(s) => substitute(s, &tokens),
        None => substitute("", &tokens),
    };
    let label = substitute(row.label, &tokens);
    Claim::new(
        path,
        UNATTRIBUTED_OWNER,
        row.kind,
        EvidenceTier::Observed,
        evidence.as_str(),
    ).label(label.as_str()).stale()
}

/// The project whose path, with dashes, is at the front of a name.
pub open spec fn encoded_project(name: Seq<char>) -> spec_fn(ProjectView) -> Option<ProjectView> {
    |p: ProjectView|
        if name == encoded_dir(p.root) || starts(name, encoded_dir(p.root) + "-"@) {
            Some(p)
        } else {
            None
        }
}

/// The project that an entry's name stands for.
pub open spec fn project_by_name(entry: Seq<Seq<char>>, projects: Seq<ProjectView>) -> Option<
    ProjectView,
> {
    match file_name(entry) {
        Some(name) => first_some(projects, encoded_project(name)),
        None => None,
    }
}

fn fallback_encoded_project_dir<'a>(entry: &FilePath, index: &'a ProjectIndex) -> (r: Option<
    &'a Project,
>)
    ensures
        opt_project(r) == project_by_name(entry@, index@),
{
    let name = match entry.file_name() {
        Some(n) => n,
        None => {
            return None;
        },
    };
    let ghost all = index@;
    let ghost f = encoded_project(name@);
    let mut i: usize = 0;
    assert(all.skip(0) =~= all);
    while i < index.list.len()
        invariant
            i <= index.list.len(),
            all == index@,
            f == encoded_project(name@),
            file_name(entry@) == Some(name@),
            first_some(all, f) == first_some(all.skip(i as int), f),
        decreases index.list.len() - i,
    {
        proof {
            assert(all[i as int] == index.list@[i as int]@);
            lemma_first_some_step(all, f, i as int);
        }
        let encoded = encode_claude_project_dir(&index.list[i].root);
        if same(name, encoded.as_str()) || str_starts(
            name,
            cat2(encoded.as_str(), "-").as_str(),
        ) {
            return Some(&index.list[i]);
        }
        i = i + 1;
    }
    None
}

/// The claim by name on an entry that names no project.
pub open spec fn fallback_claim(row: ReverseLinkView, entry: Seq<Seq<char>>, root: Seq<Seq<char>>) -> ClaimView {
    let path = claimed_at(entry, row.claim);
    plain_claim(
        path,
        path_text(root),
        row.kind,
        EvidenceTier::NameMatch,
        "encoded project path"@,
    ).labelled(filled(row.label@, link_tokens(path, seq![], seq![]))).tagged(
        match row.ecosystem {
            Some(e) => e@,
            None => seq![],
        },
    )
}

fn build_fallback_claim(row: &ReverseLink, entry: &FilePath, root: &FilePath) -> (r: Claim)
    ensures
        r@ == fallback_claim(row@, entry@, root@),
{
    let path = claim_at(entry, row.claim);
    proof {
        reveal_strlit("");
        assert(""@ =~= seq![]);
    }
    let tokens = reverse_tokens(&path, "", "");
    let label = substitute(row.label, &tokens);
    let owner = root.text();
    Claim::new(
        path,
        owner.as_str(),
        row.kind,
        EvidenceTier::NameMatch,
        "encoded project path",
    ).label(label.as_str()).ecosystem(
        match row.ecosystem {
            Some(e) => e,
            None => "",
        },
    )
}

/// Whether a bundle id is one of these, or that of an extension of one.
pub open spec fn bundle_id_of(ids: Seq<Seq<char>>, id: Seq<char>) -> bool {
    exists|i: int| 0 <= i < ids.len() && (id == #[trigger] ids[i] || starts(id, ids[i] + "."@))
}

/// Whether a bundle id is one of these, or that of an extension of one.
pub fn matches_bundle_id(project_ids: &Vec<String>, id: &str) -> (r: bool)
    ensures
        r == bundle_id_of(project_ids.deep_view(), id@),
{
    let ghost all = project_ids.deep_view();
    let mut i: usize = 0;
    while i < project_ids.len()
        invariant
            i <= project_ids.len(),
            all == project_ids.deep_view(),
            forall|j: int|
                0 <= j < i ==> !(id@ == #[trigger] all[j] || starts(id@, all[j] + "."@)),
        decreases project_ids.len() - i,
    {
        assert(all[i as int] == project_ids@[i as int]@);
        if same(id, project_ids[i].as_str()) || str_starts(
            id,
            cat2(project_ids[i].as_str(), ".").as_str(),
        ) {
            return true;
        }
        i = i + 1;
    }
    false
}

/// The project with this bundle id.
pub open spec fn project_of_id(id: Seq<char>) -> spec_fn(ProjectView) -> Option<ProjectView> {
    |p: ProjectView|
        if bundle_id_of(p.bundle_ids, id) {
            Some(p)
        } else {
            None
        }
}

fn find_bundle_owner<'a>(index: &'a ProjectIndex, id: &str) -> (r: Option<&'a Project>)
    ensures
        opt_project(r) == first_some(index@, project_of_id(id@)),
{
    let ghost all = index@;
    let ghost f = project_of_id(id@);
    let mut i: usize = 0;
    assert(all.skip(0) =~= all);
    while i < index.list.len()
        invariant
            i <= index.list.len(),
            all == index@,
            f == project_of_id(id@),
            first_some(all, f) == first_some(all.skip(i as int), f),
        decreases index.list.len() - i,
    {
        proof {
            assert(all[i as int] == index.list@[i as int]@);
            lemma_first_some_step(all, f, i as int);
        }
        if matches_bundle_id(&index.list[i].bundle_ids, id) {
            return Some(&index.list[i]);
        }
        i = i + 1;
    }
    None
}

/// Whether what an entry names is gone, as far as the rule asks.
pub open spec fn is_gone(row: ReverseLinkView, disk: DiskView, p: Seq<Seq<char>>) -> bool {
    row.stale is Some && !disk.present(p)
}

/// The claim on an entry that names a path: of the project that the path lies in, stale where the
/// path is gone; of nobody where it is gone and lies in no project.
pub open spec fn path_claims(
    row: ReverseLinkView,
    entry: Seq<Seq<char>>,
    x: ExtractedView,
    projects: Seq<ProjectView>,
    disk: DiskView,
) -> Seq<ClaimView> {
    let p = canonical(x.path);
    match owner_in(projects, p) {
        Some(project) => {
            let c = link_claim(row, entry, project.root, x.label_extra, seq![]);
            if is_gone(row, disk, p) {
                seq![c.gone()]
            } else {
                seq![c]
            }
        },
        None => if is_gone(row, disk, p) {
            seq![stale_claim(row, entry, p)]
        } else {
            seq![]
        },
    }
}

/// The claim on an entry that names a bundle id: of the project that has it.
pub open spec fn id_claims(
    row: ReverseLinkView,
    entry: Seq<Seq<char>>,
    x: ExtractedView,
    projects: Seq<ProjectView>,
) -> Seq<ClaimView> {
    match first_some(projects, project_of_id(x.text)) {
        Some(project) => seq![link_claim(row, entry, project.root, x.label_extra, x.text)],
        None => seq![],
    }
}

/// The claims on an entry, given what it names.
pub open spec fn named_claims(
    row: ReverseLinkView,
    entry: Seq<Seq<char>>,
    x: Option<ExtractedView>,
    projects: Seq<ProjectView>,
    disk: DiskView,
) -> Seq<ClaimView> {
    match x {
        Some(x) => match row.matcher {
            Matcher::PathUnderProject => path_claims(row, entry, x, projects, disk),
            Matcher::BundleId => id_claims(row, entry, x, projects),
        },
        None => if row.matcher == Matcher::PathUnderProject && row.fallback is Some {
            match project_by_name(entry, projects) {
                Some(project) => seq![fallback_claim(row, entry, project.root)],
                None => seq![],
            }
        } else {
            seq![]
        },
    }
}

/// The claims on an entry, given what it names.
pub fn claims_on_named(
    row: &ReverseLink,
    entry: &FilePath,
    x: &Option<Extracted>,
    index: &ProjectIndex,
    disk: &mut Disk,
) -> (r: Vec<Claim>)
    requires
        old(disk).wf(),
    ensures
        final(disk).asked(*old(disk)),
        final(disk).holds()
            ==> r.deep_view() == named_claims(row@, entry@, x.deep_view(), index@, old(disk)@),
{
    let ghost want = named_claims(row@, entry@, x.deep_view(), index@, disk@);
    let mut out: Vec<Claim> = Vec::new();
    proof {
        reveal_strlit("");
        assert(""@ =~= seq![]);
    }
    match x {
        Some(x) => match row.matcher {
            Matcher::PathUnderProject => {
                let p = tree_path(&x.path);
                let gone = row.stale.is_some() && !disk.present(&p);
                match index.owner_of(&p) {
                    Some(project) => {
                        let c = build_reverse_claim(row, entry, &project.root, &x.label_extra, "");
                        if gone {
                            put(&mut out, c.stale());
                        } else {
                            put(&mut out, c);
                        }
                    },
                    None => {
                        if gone {
                            put(&mut out, build_stale_claim(row, entry, &p));
                        }
                    },
                }
            },
            Matcher::BundleId => match find_bundle_owner(index, x.text.as_str()) {
                Some(project) => {
                    put(
                        &mut out,
                        build_reverse_claim(
                            row,
                            entry,
                            &project.root,
                            &x.label_extra,
                            x.text.as_str(),
                        ),
                    );
                },
                None => {},
            },
        },
        None => {
            if row.matcher == Matcher::PathUnderProject && row.fallback.is_some() {
                match fallback_encoded_project_dir(entry, index) {
                    Some(project) => {
                        put(&mut out, build_fallback_claim(row, entry, &project.root));
                    },
                    None => {},
                }
            }
        },
    }
    assert(disk.holds() ==> out.deep_view() =~= want);
    out
}

/// A path with its `.` and `..` resolved, as far as the components go.
pub open spec fn normal_path(p: Seq<Seq<char>>) -> Seq<Seq<char>>
    decreases p.len(),
{
    if p.len() == 0 {
        seq![]
    } else {
        let front = normal_path(p.drop_last());
        let c = p.last();
        if c == dot_dot() {
            match parent(front) {
                Some(q) => q,
                None => front,
            }
        } else if c == dot() {
            front
        } else {
            front.push(c)
        }
    }
}

/// A path with its `.` and `..` resolved, without a look at the disk.
pub fn normalize_path(path: &FilePath) -> (r: FilePath)
    ensures
        r@ == normal_path(path@),
{
    let ghost all = path@;
    let mut out = FilePath { comps: Vec::new() };
    let mut i: usize = 0;
    assert(out@ =~= normal_path(all.take(0)));
    while i < path.comps.len()
        invariant
            i <= path.comps.len(),
            all == path@,
            out@ == normal_path(all.take(i as int)),
        decreases path.comps.len() - i,
    {
        let c = path.comps[i].as_str();
        proof {
            assert(all.take(i + 1).drop_last() =~= all.take(i as int));
            assert(all.take(i + 1).last() == c@);
            reveal_strlit("..");
            reveal_strlit(".");
            assert(".."@ =~= dot_dot());
            assert("."@ =~= dot());
        }
        let ghost was = out@;
        if same(c, "..") {
            if let Some(q) = out.parent() {
                out = q;
            }
        } else if !same(c, ".") {
            out.comps.push(path.comps[i].clone());
            assert(out@ =~= was.push(c@));
        }
        i = i + 1;
    }
    assert(all.take(i as int) =~= all);
    out
}

/// Where a link in a directory leads, in the form that the walked trees use.
pub open spec fn link_target(dir: Seq<Seq<char>>, name: Seq<char>, target: Seq<Seq<char>>) -> Seq<
    Seq<char>,
> {
    let link = child(dir, name);
    let resolved = if is_absolute(target) {
        target
    } else {
        match parent(link) {
            Some(p) => joined(p, target),
            None => target,
        }
    };
    canonical(normal_path(resolved))
}

/// Whether one of the projects has this root.
pub open spec fn has_root(projects: Seq<ProjectView>, root: Seq<Seq<char>>) -> bool {
    exists|i: int| 0 <= i < projects.len() && (#[trigger] projects[i]).root == root
}

/// The projects that the links among these entries lead into, each root once.
pub open spec fn linked_projects(
    disk: DiskView,
    dir: Seq<Seq<char>>,
    entries: Seq<(Seq<char>, NodeKind)>,
    projects: Seq<ProjectView>,
) -> Seq<ProjectView>
    decreases entries.len(),
{
    if entries.len() == 0 {
        seq![]
    } else {
        let before = linked_projects(disk, dir, entries.drop_last(), projects);
        let name = entries.last().0;
        match disk.link(child(dir, name)) {
            Some(target) => match owner_in(projects, link_target(dir, name, target)) {
                Some(p) => if has_root(before, p.root) {
                    before
                } else {
                    before.push(p)
                },
                None => before,
            },
            None => before,
        }
    }
}

/// The directory whose links count.
pub open spec fn links_dir(entry: Seq<Seq<char>>, subdir: Seq<char>) -> Seq<Seq<char>> {
    if subdir.len() == 0 {
        entry
    } else {
        child(entry, subdir)
    }
}

/// The claims on an entry: one for each project that a link in it leads into.
pub open spec fn symlink_claims(
    row: ReverseLinkView,
    subdir: Seq<char>,
    projects: Seq<ProjectView>,
    disk: DiskView,
) -> spec_fn(Seq<Seq<char>>) -> Seq<ClaimView> {
    |entry: Seq<Seq<char>>|
        match disk.list(links_dir(entry, subdir)) {
            Some(entries) => {
                let owners = linked_projects(disk, links_dir(entry, subdir), entries, projects);
                Seq::new(
                    owners.len(),
                    |i: int| link_claim(row, entry, owners[i].root, None, seq![]),
                )
            },
            None => seq![],
        }
}

/// What borrowed projects are.
pub open spec fn project_views(list: Seq<&Project>) -> Seq<ProjectView> {
    Seq::new(list.len(), |i: int| list[i]@)
}

fn holds_root(list: &Vec<&Project>, root: &FilePath) -> (r: bool)
    ensures
        r == has_root(project_views(list@), root@),
{
    let mut i: usize = 0;
    while i < list.len()
        invariant
            i <= list.len(),
            forall|j: int| 0 <= j < i ==> (#[trigger] project_views(list@)[j]).root != root@,
        decreases list.len() - i,
    {
        assert(project_views(list@)[i as int] == list@[i as int]@);
        if list[i].root.same(root) {
            return true;
        }
        i = i + 1;
    }
    false
}

fn find_linked<'a>(
    disk: &mut Disk,
    dir: &FilePath,
    entries: &Vec<Listed>,
    index: &'a ProjectIndex,
) -> (r: Vec<&'a Project>)
    requires
        old(disk).wf(),
    ensures
        final(disk).asked(*old(disk)),
        final(disk).holds()
            ==> project_views(r@) == linked_projects(old(disk)@, dir@, entries.deep_view(), index@),
{
    let ghost facts = disk@;
    let ghost all = entries.deep_view();
    let mut out: Vec<&'a Project> = Vec::new();
    let mut i: usize = 0;
    assert(project_views(out@) =~= linked_projects(facts, dir@, all.take(0), index@));
    while i < entries.len()
        invariant
            i <= entries.len(),
            all == entries.deep_view(),
            facts == old(disk)@,
            disk.asked(*old(disk)),
            disk.holds()
                ==> project_views(out@) == linked_projects(facts, dir@, all.take(i as int), index@),
        decreases entries.len() - i,
    {
        proof {
            assert(all.take(i + 1).drop_last() =~= all.take(i as int));
            assert(all.take(i + 1).last() == entries@[i as int].deep_view());
        }
        let ghost was = project_views(out@);
        let link = dir.child(entries[i].name.as_str());
        if let Some(target) = disk.link(&link) {
            let resolved = if target.is_absolute() {
                target
            } else {
                match link.parent() {
                    Some(p) => p.join(&target),
                    None => target,
                }
            };
            let p = tree_path(&normalize_path(&resolved));
            if let Some(project) = index.owner_of(&p) {
                if !holds_root(&out, &project.root) {
                    out.push(project);
                    assert(project_views(out@) =~= was.push(project@));
                }
            }
        }
        i = i + 1;
    }
    assert(all.take(i as int) =~= all);
    out
}

fn put_symlink_claims(
    row: &ReverseLink,
    entry: &FilePath,
    subdir: &str,
    index: &ProjectIndex,
    disk: &mut Disk,
    out: &mut Vec<Claim>,
)
    requires
        old(disk).wf(),
    ensures
        final(disk).asked(*old(disk)),
        final(disk).holds() ==> final(out).deep_view() == old(out).deep_view() + symlink_claims(
            row@,
            subdir@,
            index@,
            old(disk)@,
        )(entry@),
{
    let ghost facts = disk@;
    let ghost was = out.deep_view();
    let ghost want = symlink_claims(row@, subdir@, index@, facts)(entry@);
    let c = chars_of(subdir);
    let dir = if c.len() == 0 {
        entry.copy()
    } else {
        entry.child(subdir)
    };
    proof {
        reveal_strlit("");
        assert(""@ =~= seq![]);
    }
    match disk.list(&dir) {
        Some(entries) => {
            let owners = find_linked(disk, &dir, &entries, index);
            let ghost views = project_views(owners@);
            let mut i: usize = 0;
            assert(out.deep_view() =~= was + want.take(0));
            while i < owners.len()
                invariant
                    i <= owners.len(),
                    views == project_views(owners@),
                    ""@ == Seq::<char>::empty(),
                    disk.holds() ==> want == Seq::new(
                        views.len(),
                        |i: int| link_claim(row@, entry@, views[i].root, None, seq![]),
                    ),
                    disk.holds() ==> out.deep_view() == was + want.take(i as int),
                decreases owners.len() - i,
            {
                assert(views[i as int] == owners@[i as int]@);
                let claim = build_reverse_claim(row, entry, &owners[i].root, &None, "");
                put(out, claim);
                assert(disk.holds() ==> out.deep_view() =~= was + want.take(i + 1));
                i = i + 1;
            }
            assert(disk.holds() ==> want.take(i as int) =~= want);
        },
        None => {
            assert(disk.holds() ==> out.deep_view() =~= was + want);
        },
    }
}

/// The claims on an entry, as a function of the entry.
pub open spec fn entry_claims(row: ReverseLinkView, projects: Seq<ProjectView>, disk: DiskView) -> spec_fn(
    Seq<Seq<char>>,
) -> Seq<ClaimView> {
    |entry: Seq<Seq<char>>|
        named_claims(row, entry, extracted(row.extract, entry, disk), projects, disk)
}

/// The claims of a rule.
pub open spec fn reverse_claims(
    row: ReverseLinkView,
    projects: Seq<ProjectView>,
    home: Seq<Seq<char>>,
    disk: DiskView,
) -> Seq<ClaimView> {
    match row.extract {
        ExtractView::SymlinkTargets { subdir } => flat(
            scanned(row.scan, disk, home),
            symlink_claims(row, subdir@, projects, disk),
        ),
        _ => flat(scanned(row.scan, disk, home), entry_claims(row, projects, disk)),
    }
}

fn eval_symlink_targets(
    row: &ReverseLink,
    entries: &Vec<FilePath>,
    subdir: &str,
    index: &ProjectIndex,
    disk: &mut Disk,
) -> (r: Vec<Claim>)
    requires
        old(disk).wf(),
    ensures
        final(disk).asked(*old(disk)),
        final(disk).holds() ==> r.deep_view() == flat(
            entries.deep_view(),
            symlink_claims(row@, subdir@, index@, old(disk)@),
        ),
{
    let ghost facts = disk@;
    let ghost all = entries.deep_view();
    let ghost f = symlink_claims(row@, subdir@, index@, facts);
    let mut out: Vec<Claim> = Vec::new();
    let mut i: usize = 0;
    proof {
        lemma_flat_start(all, f);
        assert(out.deep_view() =~= flat(all.take(0), f));
    }
    while i < entries.len()
        invariant
            i <= entries.len(),
            all == entries.deep_view(),
            facts == old(disk)@,
            f == symlink_claims(row@, subdir@, index@, facts),
            disk.asked(*old(disk)),
            disk.holds() ==> out.deep_view() == flat(all.take(i as int), f),
        decreases entries.len() - i,
    {
        proof {
            assert(all[i as int] == entries@[i as int]@);
            lemma_flat_step(all, f, i as int);
        }
        put_symlink_claims(row, &entries[i], subdir, index, disk, &mut out);
        i = i + 1;
    }
    assert(all.take(i as int) =~= all);
    out
}

/// The claims of a rule on the entries that it looks at.
pub fn eval_reverse(row: &ReverseLink, env: &ResolveEnv, index: &ProjectIndex, disk: &mut Disk) -> (r: Vec<
    Claim,
>)
    requires
        old(disk).wf(),
    ensures
        final(disk).asked(*old(disk)),
        final(disk).holds()
            ==> r.deep_view() == reverse_claims(row@, index@, env@.home, old(disk)@),
{
    let ghost facts = disk@;
    let entries = match &row.scan {
        Scan::Dirs { roots, depth, skip } => scan_dirs(roots, *depth, skip, &env.home, disk),
        Scan::Files { roots, name, cap } => scan_files(roots, *name, *cap, &env.home, disk),
    };
    if let Extract::SymlinkTargets { subdir } = &row.extract {
        return eval_symlink_targets(row, &entries, *subdir, index, disk);
    }
    let ghost all = entries.deep_view();
    let ghost f = entry_claims(row@, index@, facts);
    let mut out: Vec<Claim> = Vec::new();
    let mut i: usize = 0;
    proof {
        lemma_flat_start(all, f);
        assert(out.deep_view() =~= flat(all.take(0), f));
    }
    let ghost start = *disk;
    while i < entries.len()
        invariant
            i <= entries.len(),
            all == entries.deep_view(),
            facts == old(disk)@,
            f == entry_claims(row@, index@, facts),
            disk.asked(*old(disk)),
            disk.holds() ==> start.holds(),
            disk.holds() ==> out.deep_view() == flat(all.take(i as int), f),
        decreases entries.len() - i,
    {
        proof {
            assert(all[i as int] == entries@[i as int]@);
            lemma_flat_step(all, f, i as int);
        }
        let x = extract_one(&row.extract, &entries[i], env, disk);
        let more = claims_on_named(row, &entries[i], &x, index, disk);
        put_all(&mut out, more);
        i = i + 1;
    }
    assert(all.take(i as int) =~= all);
    out
}

/// The last cache directory that was found at a path.
pub open spec fn cache_finding(findings: Seq<FindingView>, key: Seq<Seq<char>>) -> Option<FindingId>
    decreases findings.len(),
{
    if findings.len() == 0 {
        None
    } else {
        let f = findings.last();
        if f.kind == FindingKind::CacheDir && f.path is Some && canonical(f.path->0) == key {
            Some(f.id)
        } else {
            cache_finding(findings.drop_last(), key)
        }
    }
}

/// A claim with the finding of the cache directory at its path, unless it has a finding.
pub open spec fn with_cache_finding(c: ClaimView, findings: Seq<FindingView>) -> ClaimView {
    if c.finding is Some {
        c
    } else {
        ClaimView { finding: cache_finding(findings, canonical(c.path)), ..c }
    }
}

/// The claims with the findings of the cache directories at their paths.
pub open spec fn with_cache_findings(claims: Seq<ClaimView>, findings: Seq<FindingView>) -> Seq<
    ClaimView,
> {
    Seq::new(claims.len(), |i: int| with_cache_finding(claims[i], findings))
}

/// The paths of the cache directories that were found, with the findings.
fn cache_paths(findings: &[Finding]) -> (r: Vec<(FilePath, FindingId)>)
    ensures
        forall|key: Seq<Seq<char>>| #[trigger]
            cache_finding(findings.deep_view(), key) == last_at(r@, key),
{
    let ghost all = findings.deep_view();
    let mut out: Vec<(FilePath, FindingId)> = Vec::new();
    let mut i: usize = 0;
    while i < findings.len()
        invariant
            i <= findings.len(),
            all == findings.deep_view(),
            forall|key: Seq<Seq<char>>| #[trigger]
                cache_finding(all.take(i as int), key) == last_at(out@, key),
        decreases findings.len() - i,
    {
        let f = &findings[i];
        let ghost was = out@;
        proof {
            assert(all.take(i + 1).drop_last() =~= all.take(i as int));
            assert(all.take(i + 1).last() == f@);
        }
        if f.kind == FindingKind::CacheDir {
            if let Some(p) = &f.path {
                out.push((tree_path(p), f.id));
                assert(out@.drop_last() =~= was);
            }
        }
        assert forall|key: Seq<Seq<char>>| #[trigger]
            cache_finding(all.take(i + 1), key) == last_at(out@, key) by {
            assert(cache_finding(all.take(i as int), key) == last_at(was, key));
        }
        i = i + 1;
    }
    assert(all.take(i as int) =~= all);
    out
}

/// The finding of the last pair with this path.
pub open spec fn last_at(pairs: Seq<(FilePath, FindingId)>, key: Seq<Seq<char>>) -> Option<FindingId>
    decreases pairs.len(),
{
    if pairs.len() == 0 {
        None
    } else if pairs.last().0@ == key {
        Some(pairs.last().1)
    } else {
        last_at(pairs.drop_last(), key)
    }
}

fn find_last_at(pairs: &Vec<(FilePath, FindingId)>, key: &FilePath) -> (r: Option<FindingId>)
    ensures
        r == last_at(pairs@, key@),
{
    let mut n: usize = pairs.len();
    assert(pairs@.take(n as int) =~= pairs@);
    while n > 0
        invariant
            n <= pairs.len(),
            last_at(pairs@, key@) == last_at(pairs@.take(n as int), key@),
        decreases n,
    {
        assert(pairs@.take(n as int).last() == pairs@[n - 1]);
        assert(pairs@.take(n as int).drop_last() =~= pairs@.take(n - 1));
        if pairs[n - 1].0.same(key) {
            return Some(pairs[n - 1].1);
        }
        n = n - 1;
    }
    None
}

/// The claims with the findings of the cache directories at their paths, where they have none.
pub fn attach_matching_fs_findings(claims: Vec<Claim>, env: &ResolveEnv) -> (r: Vec<Claim>)
    ensures
        r.deep_view() == with_cache_findings(claims.deep_view(), env@.findings(ScannerId::Fs)),
{
    let ghost fs = env@.findings(ScannerId::Fs);
    let ghost want = with_cache_findings(claims.deep_view(), fs);
    let pairs = cache_paths(env.findings(ScannerId::Fs));
    let ghost all = claims.deep_view();
    let mut rest = claims;
    let mut out: Vec<Claim> = Vec::new();
    assert(rest.deep_view() =~= all.skip(0));
    while rest.len() > 0
        invariant
            out.len() + rest.len() == all.len(),
            rest.deep_view() == all.skip(out.len() as int),
            fs == env@.findings(ScannerId::Fs),
            want == with_cache_findings(all, fs),
            forall|key: Seq<Seq<char>>| #[trigger]
                cache_finding(fs, key) == last_at(pairs@, key),
            out.deep_view() =~= want.take(out.len() as int),
        decreases rest.len(),
    {
        let ghost n = out.len() as int;
        let ghost before = rest.deep_view();
        let ghost items = rest@;
        let mut c = rest.remove(0);
        proof {
            assert(c@ == before[0]);
            assert(before[0] == all[n]);
            assert(rest@ == items.remove(0));
            assert(rest.deep_view() =~= before.skip(1));
            assert(rest.deep_view() =~= all.skip(n + 1));
        }
        let ghost old_c = c@;
        if c.finding.is_none() {
            let key = tree_path(&c.path);
            c.finding = find_last_at(&pairs, &key);
            assert(cache_finding(fs, key@) == last_at(pairs@, key@));
        }
        assert(c@ =~= with_cache_finding(old_c, fs));
        put(&mut out, c);
        assert(out.deep_view().len() == out.len());
    }
    assert(want.take(out.len() as int) =~= want);
    out
}

/// The claims of one rule, as a function of the rule.
pub open spec fn claims_of_link(projects: Seq<ProjectView>, home: Seq<Seq<char>>, disk: DiskView) -> spec_fn(
    ReverseLinkView,
) -> Seq<ClaimView> {
    |row: ReverseLinkView| reverse_claims(row, projects, home, disk)
}

/// The claims of all rules that lead from entries of the home directory to projects, rule by rule,
/// with the findings of the cache directories at their paths.
pub fn reverse_links(env: &ResolveEnv, index: &ProjectIndex, disk: &mut Disk) -> (r: Vec<Claim>)
    requires
        old(disk).wf(),
    ensures
        final(disk).asked(*old(disk)),
        final(disk).holds() ==> r.deep_view() == with_cache_findings(
            flat(reverse_table(env@.agent), claims_of_link(index@, env@.home, old(disk)@)),
            env@.findings(ScannerId::Fs),
        ),
{
    let ghost facts = disk@;
    let rows = reverse_rows(env.agent);
    let ghost all = rows.deep_view();
    let ghost f = claims_of_link(index@, env@.home, facts);
    let mut out: Vec<Claim> = Vec::new();
    let mut i: usize = 0;
    proof {
        lemma_flat_start(all, f);
        assert(out.deep_view() =~= flat(all.take(0), f));
    }
    while i < rows.len()
        invariant
            i <= rows.len(),
            all == rows.deep_view(),
            facts == old(disk)@,
            f == claims_of_link(index@, env@.home, facts),
            disk.asked(*old(disk)),
            disk.holds() ==> out.deep_view() == flat(all.take(i as int), f),
        decreases rows.len() - i,
    {
        proof {
            assert(all[i as int] == rows@[i as int]@);
            lemma_flat_step(all, f, i as int);
        }
        let more = eval_reverse(&rows[i], env, index, disk);
        put_all(&mut out, more);
        i = i + 1;
    }
    assert(all.take(i as int) =~= all);
    attach_matching_fs_findings(out, env)
}

} // verus!
