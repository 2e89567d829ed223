//! Editors: the workspace storage of VS Code and its kin, and the caches of the JetBrains editors.

use vstd::prelude::*;
use vstd::slice::slice_subrange;

use crate::attribution::model::{
    put, Claim, ClaimView, EntryKind, EnvView, EvidenceTier, ResolveEnv,
};
use crate::attribution::paths::{canonical, from_file_uri, tree_path, uri_target};
use crate::attribution::projects::{in_project, under_project, Project, ProjectView};
use crate::disk::{Disk, DiskView, NodeKind};
use crate::doc::{json_document, parse_json, text_field, Doc, DocView};
use crate::fspath::{child, path_text, FilePath};
use crate::seqs::{flat, lemma_filter_map_start, lemma_flat_start, lemma_flat_step};
use crate::text::{after_last, cat2, chars_of, find_last, listed, string_of};

use super::common::{own, own_claim};
use super::derive::list_dirs;
use super::templates::entry_paths;

verus! {

broadcast use crate::disk::group_asks;

/// How much of a `workspace.json` is read.
pub const MAX_WORKSPACE_JSON_BYTES: usize = 16384;

/// The directory that a window has open: the one under `folder`, else the one under `workspace`.
pub open spec fn window_folder(d: DocView) -> Option<Seq<Seq<char>>> {
    match text_field(d, "folder"@) {
        Some(uri) => uri_target(uri),
        None => match text_field(d, "workspace"@) {
            Some(uri) => uri_target(uri),
            None => None,
        },
    }
}

/// The directory that a window has open, from its parsed `workspace.json`.
pub fn workspace_folder(d: &Doc) -> (r: Option<FilePath>)
    ensures
        r.deep_view() == window_folder(d@),
{
    match d.text("folder") {
        Some(uri) => from_file_uri(uri),
        None => match d.text("workspace") {
            Some(uri) => from_file_uri(uri),
            None => None,
        },
    }
}

/// The directory that a window has open, from the text of its `workspace.json`.
pub open spec fn folder_in(text: Seq<char>) -> Option<Seq<Seq<char>>> {
    match json_document(text) {
        Some(d) => window_folder(d),
        None => None,
    }
}

/// The directory that a window has open, from the text of its `workspace.json`.
pub fn parse_workspace_json_folder(text: &str) -> (r: Option<FilePath>)
    ensures
        r.deep_view() == folder_in(text@),
{
    match parse_json(text) {
        Some(d) => workspace_folder(&d),
        None => None,
    }
}

/// The editors that keep their workspaces as VS Code does.
pub open spec fn vscode_family() -> Seq<Seq<char>> {
    seq!["Code"@, "Code - Insiders"@, "Cursor"@, "Antigravity"@, "VSCodium"@]
}

/// Where an editor keeps its workspaces.
pub open spec fn storage_dir(home: Seq<Seq<char>>, app: Seq<char>) -> Seq<Seq<char>> {
    child(child(child(home, "Library/Application Support"@), app), "User/workspaceStorage"@)
}

/// The claim on a workspace whose window has a directory of the project open.
pub open spec fn window_claim(p: ProjectView, disk: DiskView, app: Seq<char>) -> spec_fn(
    Seq<Seq<char>>,
) -> Option<ClaimView> {
    |dir: Seq<Seq<char>>|
        match disk.head(child(dir, "workspace.json"@), MAX_WORKSPACE_JSON_BYTES) {
            Some(text) => match folder_in(text) {
                Some(folder) => if in_project(p, canonical(folder)) {
                    Some(
                        own(
                            dir,
                            path_text(p.root),
                            EntryKind::EditorState,
                            EvidenceTier::Exact,
                            app + " workspace.json"@,
                            app + " workspace storage"@,
                        ),
                    )
                } else {
                    None
                },
                None => None,
            },
            None => None,
        }
}

/// The claims on the workspaces of one editor.
pub open spec fn app_window_claims(p: ProjectView, home: Seq<Seq<char>>, disk: DiskView) -> spec_fn(
    Seq<char>,
) -> Seq<ClaimView> {
    |app: Seq<char>|
        entry_paths(disk, storage_dir(home, app), true).filter_map(window_claim(p, disk, app))
}

fn make_window_claim(project: &Project, dir: &FilePath, app: &str, env: &ResolveEnv, disk: &mut Disk) -> (r: Option<
    Claim,
>)
    requires
        old(disk).wf(),
    ensures
        final(disk).asked(*old(disk)),
        final(disk).holds() ==> r.deep_view() == window_claim(project@, old(disk)@, app@)(dir@),
{
    let text = match env.read_head(disk, &dir.child("workspace.json"), MAX_WORKSPACE_JSON_BYTES) {
        Some(t) => t,
        None => {
            return None;
        },
    };
    let folder = match parse_workspace_json_folder(text.as_str()) {
        Some(f) => f,
        None => {
            return None;
        },
    };
    if !under_project(&tree_path(&folder), project) {
        return None;
    }
    let owner = project.root.text();
    Some(
        own_claim(
            dir.copy(),
            owner.as_str(),
            EntryKind::EditorState,
            EvidenceTier::Exact,
            cat2(app, " workspace.json").as_str(),
            cat2(app, " workspace storage").as_str(),
        ),
    )
}

fn put_window_claims(project: &Project, app: &str, env: &ResolveEnv, disk: &mut Disk, out: &mut Vec<Claim>)
    requires
        old(disk).wf(),
    ensures
        final(disk).asked(*old(disk)),
        final(disk).holds() ==> final(out).deep_view() == old(out).deep_view() + app_window_claims(
            project@,
            env@.home,
            old(disk)@,
        )(app@),
{
    let ghost facts = disk@;
    let ghost was = out.deep_view();
    let storage = env.home.child("Library/Application Support").child(app).child(
        "User/workspaceStorage",
    );
    let dirs = list_dirs(disk, &storage);
    let ghost all = dirs.deep_view();
    let ghost pick = window_claim(project@, facts, app@);
    let mut i: usize = 0;
    proof {
        lemma_filter_map_start(all, pick);
        assert(out.deep_view() =~= was + all.take(0).filter_map(pick));
    }
    let ghost start = *disk;
    while i < dirs.len()
        invariant
            i <= dirs.len(),
            all == dirs.deep_view(),
            facts == old(disk)@,
            disk.asked(*old(disk)),
            disk.holds() ==> start.holds(),
            pick == window_claim(project@, facts, app@),
            disk.holds() ==> out.deep_view() == was + all.take(i as int).filter_map(pick),
        decreases dirs.len() - i,
    {
        proof {
            assert(all[i as int] == dirs@[i as int]@);
            all.lemma_filter_map_take_succ(pick, i as int);
        }
        if let Some(c) = make_window_claim(project, &dirs[i], app, env, disk) {
            put(out, c);
        }
        assert(disk.holds() ==> out.deep_view() =~= was + all.take(i + 1).filter_map(pick));
        i = i + 1;
    }
    assert(all.take(i as int) =~= all);
}

fn vscode_claims(project: &Project, env: &ResolveEnv, disk: &mut Disk) -> (r: Vec<Claim>)
    requires
        old(disk).wf(),
    ensures
        final(disk).asked(*old(disk)),
        final(disk).holds() ==> r.deep_view() == flat(
            vscode_family(),
            app_window_claims(project@, env@.home, old(disk)@),
        ),
{
    let ghost facts = disk@;
    let apps = vec!["Code", "Code - Insiders", "Cursor", "Antigravity", "VSCodium"];
    let ghost all = vscode_family();
    let ghost f = app_window_claims(project@, env@.home, facts);
    let mut out: Vec<Claim> = Vec::new();
    let mut i: usize = 0;
    proof {
        assert(apps.deep_view() =~= all);
        lemma_flat_start(all, f);
        assert(out.deep_view() =~= flat(all.take(0), f));
    }
    while i < apps.len()
        invariant
            i <= apps.len(),
            all == apps.deep_view(),
            facts == old(disk)@,
            disk.asked(*old(disk)),
            f == app_window_claims(project@, env@.home, facts),
            disk.holds() ==> out.deep_view() == flat(all.take(i as int), f),
        decreases apps.len() - i,
    {
        proof {
            assert(all[i as int] == apps@[i as int]@);
            lemma_flat_step(all, f, i as int);
        }
        put_window_claims(project, apps[i], env, disk, &mut out);
        i = i + 1;
    }
    assert(all.take(i as int) =~= all);
    out
}

/// What stands before the last `c`, where there is one.
pub open spec fn before_last(s: Seq<char>, c: char) -> Option<Seq<char>> {
    if after_last(s, c) > 0 {
        Some(s.take(after_last(s, c) - 1))
    } else {
        None
    }
}

/// The name that a directory is called after: what stands before its last dot, or else before its
/// last dash, where that is one of the names.
pub open spec fn called_after(dir: Seq<char>, names: Seq<Seq<char>>) -> Option<Seq<char>> {
    match before_last(dir, '.') {
        Some(n) if names.contains(n) => Some(n),
        _ => match before_last(dir, '-') {
            Some(n) if names.contains(n) => Some(n),
            _ => None,
        },
    }
}

fn front_of(s: &[char], c: char) -> (r: Option<String>)
    ensures
        r.deep_view() == before_last(s@, c),
{
    let k = find_last(s, c);
    if k > 0 {
        let p = slice_subrange(s, 0, k - 1);
        assert(p@ =~= s@.take(k - 1));
        Some(string_of(p))
    } else {
        None
    }
}

/// The name that a directory of a JetBrains editor is called after: what stands before the hash
/// behind its last dot or dash.
pub fn jetbrains_name_match(dir_name: &str, names: &Vec<String>) -> (r: Option<String>)
    ensures
        r.deep_view() == called_after(dir_name@, names.deep_view()),
{
    let c = chars_of(dir_name);
    if let Some(n) = front_of(c.as_slice(), '.') {
        if listed(names, n.as_str()) {
            return Some(n);
        }
    }
    if let Some(n) = front_of(c.as_slice(), '-') {
        if listed(names, n.as_str()) {
            return Some(n);
        }
    }
    None
}

/// The claim on a directory that is called after the project.
pub open spec fn editor_claim(p: ProjectView, dir: Seq<Seq<char>>) -> spec_fn(
    (Seq<char>, NodeKind),
) -> Option<ClaimView> {
    |e: (Seq<char>, NodeKind)|
        if e.1 == NodeKind::Dir {
            match called_after(e.0, p.names) {
                Some(n) => Some(
                    own(
                        child(dir, e.0),
                        path_text(p.root),
                        EntryKind::EditorState,
                        EvidenceTier::NameMatch,
                        "JetBrains cache named after "@ + n,
                        e.0,
                    ),
                ),
                None => None,
            }
        } else {
            None
        }
}

/// The claims on the directories of one editor.
pub open spec fn editor_claims(p: ProjectView, disk: DiskView) -> spec_fn(Seq<Seq<char>>) -> Seq<
    ClaimView,
> {
    |dir: Seq<Seq<char>>|
        match disk.list(dir) {
            Some(entries) => entries.filter_map(editor_claim(p, dir)),
            None => seq![],
        }
}

fn put_editor_claims(project: &Project, dir: &FilePath, disk: &mut Disk, out: &mut Vec<Claim>)
    requires
        old(disk).wf(),
    ensures
        final(disk).asked(*old(disk)),
        final(disk).holds()
            ==> final(out).deep_view() == old(out).deep_view() + editor_claims(project@, old(disk)@)(dir@),
{
    let ghost was = out.deep_view();
    let owner = project.root.text();
    match disk.list(dir) {
        Some(entries) => {
            let ghost all = entries.deep_view();
            let ghost pick = editor_claim(project@, dir@);
            let mut i: usize = 0;
            proof {
                lemma_filter_map_start(all, pick);
                assert(out.deep_view() =~= was + all.take(0).filter_map(pick));
            }
            while i < entries.len()
                invariant
                    i <= entries.len(),
                    all == entries.deep_view(),
                    owner@ == path_text(project@.root),
                    pick == editor_claim(project@, dir@),
                    disk.holds() ==> out.deep_view() == was + all.take(i as int).filter_map(pick),
                decreases entries.len() - i,
            {
                proof {
                    assert(all[i as int] == entries@[i as int].deep_view());
                    all.lemma_filter_map_take_succ(pick, i as int);
                }
                let name = entries[i].name.as_str();
                if entries[i].kind == NodeKind::Dir {
                    if let Some(n) = jetbrains_name_match(name, &project.names) {
                        put(
                            out,
                            own_claim(
                                dir.child(name),
                                owner.as_str(),
                                EntryKind::EditorState,
                                EvidenceTier::NameMatch,
                                cat2("JetBrains cache named after ", n.as_str()).as_str(),
                                name,
                            ),
                        );
                    }
                }
                assert(disk.holds() ==> out.deep_view() =~= was + all.take(i + 1).filter_map(pick));
                i = i + 1;
            }
            assert(all.take(i as int) =~= all);
        },
        None => {
            assert(disk.holds()
                ==> out.deep_view() =~= was + editor_claims(project@, old(disk)@)(dir@));
        },
    }
}

/// The claims on the directories of all editors in one place.
pub open spec fn root_claims(p: ProjectView, disk: DiskView, root: Seq<Seq<char>>) -> Seq<ClaimView> {
    flat(entry_paths(disk, root, true), editor_claims(p, disk))
}

fn put_root_claims(project: &Project, root: &FilePath, disk: &mut Disk, out: &mut Vec<Claim>)
    requires
        old(disk).wf(),
    ensures
        final(disk).asked(*old(disk)),
        final(disk).holds()
            ==> final(out).deep_view() == old(out).deep_view() + root_claims(project@, old(disk)@, root@),
{
    let ghost facts = disk@;
    let ghost was = out.deep_view();
    let dirs = list_dirs(disk, root);
    let ghost all = dirs.deep_view();
    let ghost f = editor_claims(project@, facts);
    let mut i: usize = 0;
    proof {
        lemma_flat_start(all, f);
        assert(out.deep_view() =~= was + flat(all.take(0), f));
    }
    let ghost start = *disk;
    while i < dirs.len()
        invariant
            i <= dirs.len(),
            all == dirs.deep_view(),
            facts == old(disk)@,
            disk.asked(*old(disk)),
            disk.holds() ==> start.holds(),
            f == editor_claims(project@, facts),
            disk.holds() ==> out.deep_view() == was + flat(all.take(i as int), f),
        decreases dirs.len() - i,
    {
        proof {
            assert(all[i as int] == dirs@[i as int]@);
            lemma_flat_step(all, f, i as int);
        }
        put_editor_claims(project, &dirs[i], disk, out);
        assert(disk.holds() ==> out.deep_view() =~= was + flat(all.take(i + 1), f));
        i = i + 1;
    }
    assert(all.take(i as int) =~= all);
}

/// The claims of a project on what editors keep of it.
pub open spec fn editors_claims(p: ProjectView, env: EnvView, disk: DiskView) -> Seq<ClaimView> {
    flat(vscode_family(), app_window_claims(p, env.home, disk)) + root_claims(
        p,
        disk,
        child(env.home, "Library/Caches/JetBrains"@),
    ) + root_claims(p, disk, child(env.home, "Library/Application Support/JetBrains"@))
}

/// The claims of a project on what editors keep of it: workspaces whose window has a directory of
/// the project open, and directories that are called after it.
pub fn resolve(project: &Project, env: &ResolveEnv, disk: &mut Disk) -> (r: Vec<Claim>)
    requires
        old(disk).wf(),
    ensures
        final(disk).asked(*old(disk)),
        final(disk).holds() ==> r.deep_view() == editors_claims(project@, env@, old(disk)@),
{
    let mut out = vscode_claims(project, env, disk);
    put_root_claims(project, &env.home.child("Library/Caches/JetBrains"), disk, &mut out);
    put_root_claims(
        project,
        &env.home.child("Library/Application Support/JetBrains"),
        disk,
        &mut out,
    );
    out
}

} // verus!
