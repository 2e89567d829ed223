//! What holds of the claims on what Xcode, simulators, editors, coding agents and package managers keep
//! for a project.

use vstd::prelude::*;

use crate::attribution::apps::candidates::dirs_in;
use crate::attribution::model::{EntryKind, EnvView, EvidenceTier};
use crate::attribution::paths::{canonical, node_in, uri_target};
use crate::attribution::projects::ProjectView;
use crate::disk::{DiskView, NodeKind, Stat};
use crate::doc::{field, json_document, plist_document, toml_document, DocView};
use crate::fspath::{child, path_of, path_text};
use crate::scan::DirView;
use crate::seqs::{flat, lemma_first_given, lemma_in_flat, lemma_picked, lemma_picked_from};
use crate::text::{after_last, has_char, lowered, starts, swapped};
use crate::text_laws::free_of;

use super::agents::{
    agents_claims, agents_state, archive_files_of, codex_claim, codex_claims_of, of_entries,
    orphan_claim, rollout_claim, session_files_of, sessions_claim, sessions_in,
};
use super::artifacts::{config_claims, redirected_claims};
use super::caches::{
    bundle_claim, bundle_claims, bundle_places, cache_claim, cache_claims_in, is_candidate,
    named_claims,
};
use super::claim_laws::lies_in;
use super::common::names_in;
use super::derive::{cache_parents, name_variants, plist_text, telling_name};
use super::ecosystem_laws::holds_claim;
use super::editors::{
    app_window_claims, before_last, called_after, editor_claim, editor_claims, editors_claims,
    folder_in, root_claims, storage_dir, vscode_family, window_claim,
};
use super::link_laws::lemma_lies;
use super::links::{bundle_id_of, dir_cwd};
use super::node::{
    keeps_links, leads_to, links_into, node_claims, outer_store, pnpm_claims_of, projects_dirs,
    store_claim, store_claims, stores,
};
use super::parsers::{cwd_in, pins_in, swift_repo, target_dir};
use super::rules::derived_data_caches;
use super::simulator::{
    container_claim, containers_claims, device_claims, device_name, devices_in, id_of_container,
    simulator_claims,
};
use super::swiftpm::{
    kept_pin, kept_pins, repo_claims, repo_dir, repo_entry, repositories_in, resolved_files,
    swiftpm_claims,
};
use super::templates::{entry_path, entry_paths};
use super::xcode::{
    common_output, common_outputs, derived_data, output_claim, workspace_of, xcode_claims,
    xcode_common, xcode_project,
};

verus! {

/// The text under a key of a property list on the disk.
pub open spec fn listed_text(
    disk: DiskView,
    at: Seq<Seq<char>>,
    key: Seq<char>,
    text: Seq<char>,
) -> bool {
    disk.bytes(at) is Some && plist_document(disk.bytes(at)->0) is Some && field(
        plist_document(disk.bytes(at)->0)->0,
        key,
    ) == Some(DocView::Text(text))
}

/// Build output whose workspace lies in a checkout of the project is the project's.
pub proof fn law_build_output_of_a_workspace(
    p: ProjectView,
    env: EnvView,
    disk: DiskView,
    e: int,
    ws: Seq<char>,
)
    requires
        disk.stat(child(p.root, "Package.swift"@)) != Stat::Absent || exists|n: DirView, k: int|
            node_in(env.trees, p.root) == Some(n) && 0 <= k < n.children.len() && (
            ".xcodeproj"@.is_suffix_of((#[trigger] n.children[k]).name)
                || ".xcworkspace"@.is_suffix_of(n.children[k].name)),
        ({
            let dir = child(env.home, "Library/Developer/Xcode/DerivedData"@);
            &&& disk.list(dir) is Some
            &&& 0 <= e < disk.list(dir)->0.len()
            &&& disk.list(dir)->0[e].1 == NodeKind::Dir
            &&& forall|i: int|
                0 <= i < derived_data_caches().len() ==> (#[trigger] derived_data_caches()[i])@
                    != disk.list(dir)->0[e].0
            &&& listed_text(
                disk,
                child(child(dir, disk.list(dir)->0[e].0), "info.plist"@),
                "WorkspacePath"@,
                ws,
            )
        }),
        lies_in(p, canonical(path_of(ws))),
    ensures
        ({
            let dir = child(env.home, "Library/Developer/Xcode/DerivedData"@);
            holds_claim(
                xcode_claims(p, env, disk),
                p,
                child(dir, disk.list(dir)->0[e].0),
                EntryKind::Xcode,
                EvidenceTier::Exact,
                Some("xcode"@),
            )
        }),
{
    let dir = derived_data(env.home);
    let l = disk.list(dir)->0;
    lemma_lies(p, canonical(path_of(ws)));
    if disk.stat(child(p.root, "Package.swift"@)) == Stat::Absent {
        let (n, k) = choose|n: DirView, k: int|
            node_in(env.trees, p.root) == Some(n) && 0 <= k < n.children.len() && (
            ".xcodeproj"@.is_suffix_of((#[trigger] n.children[k]).name)
                || ".xcworkspace"@.is_suffix_of(n.children[k].name));
        let name = n.children[k].name;
        if ".xcodeproj"@.is_suffix_of(name) {
            assert(name.skip(name.len() - ".xcodeproj"@.len()) =~= ".xcodeproj"@);
        } else {
            assert(name.skip(name.len() - ".xcworkspace"@.len()) =~= ".xcworkspace"@);
        }
        assert(super::xcode::xcode_dir(n.children[k].name));
    }
    assert(xcode_project(p.root, env, disk));
    let f = output_claim(p, env, disk);
    assert(workspace_of(disk, child(dir, l[e].0)) == Some(canonical(path_of(ws))));
    assert(f(l[e]) is Some);
    let j = lemma_picked(l, f, e);
    let c = xcode_claims(p, env, disk)[j];
    assert(c.path == child(dir, l[e].0));
}

/// A project gets no build output but that of a workspace in one of its checkouts.
pub proof fn law_build_output_is_of_a_workspace(
    p: ProjectView,
    env: EnvView,
    disk: DiskView,
    j: int,
)
    requires
        0 <= j < xcode_claims(p, env, disk).len(),
    ensures
        ({
            let at = xcode_claims(p, env, disk)[j].path;
            exists|ws: Seq<char>|
                listed_text(disk, child(at, "info.plist"@), "WorkspacePath"@, ws) && lies_in(
                    p,
                    #[trigger] canonical(path_of(ws)),
                )
        }),
{
    let dir = derived_data(env.home);
    let l = disk.list(dir)->0;
    let f = output_claim(p, env, disk);
    let e = lemma_picked_from(l, f, j);
    let at = child(dir, l[e].0);
    let ws = plist_text(disk, child(at, "info.plist"@), "WorkspacePath"@)->0;
    lemma_lies(p, canonical(path_of(ws)));
    assert(xcode_claims(p, env, disk)[j].path == at);
    assert(listed_text(disk, child(at, "info.plist"@), "WorkspacePath"@, ws));
    assert(lies_in(p, canonical(path_of(ws))));
}

/// Build output whose workspace is gone is nobody's, and stale.
pub proof fn law_build_output_without_a_workspace(
    env: EnvView,
    disk: DiskView,
    e: int,
    ws: Seq<char>,
)
    requires
        ({
            let dir = child(env.home, "Library/Developer/Xcode/DerivedData"@);
            &&& disk.list(dir) is Some
            &&& 0 <= e < disk.list(dir)->0.len()
            &&& disk.list(dir)->0[e].1 == NodeKind::Dir
            &&& forall|i: int|
                0 <= i < derived_data_caches().len() ==> (#[trigger] derived_data_caches()[i])@
                    != disk.list(dir)->0[e].0
            &&& listed_text(
                disk,
                child(child(dir, disk.list(dir)->0[e].0), "info.plist"@),
                "WorkspacePath"@,
                ws,
            )
        }),
        disk.stat(canonical(path_of(ws))) == Stat::Absent,
    ensures
        ({
            let dir = child(env.home, "Library/Developer/Xcode/DerivedData"@);
            exists|j: int|
                0 <= j < xcode_common(env, disk).len() && (#[trigger] xcode_common(
                    env,
                    disk,
                )[j]).path == child(dir, disk.list(dir)->0[e].0) && xcode_common(env, disk)[j].owner
                    == "unattributed"@ && xcode_common(env, disk)[j].stale && !xcode_common(
                    env,
                    disk,
                )[j].baseline
        }),
{
    let dir = derived_data(env.home);
    let l = disk.list(dir)->0;
    let f = common_output(disk, env.home);
    assert(workspace_of(disk, child(dir, l[e].0)) == Some(canonical(path_of(ws))));
    assert(f(l[e]) is Some);
    let j = lemma_picked(l, f, e);
    assert(xcode_common(env, disk)[j] == common_outputs(disk, env.home)[j]);
}

/// What an app with one of the project's bundle identifiers, or with one below it, keeps in a simulator
/// is the project's.
#[verifier::rlimit(40)]
pub proof fn law_simulator_data_of_a_bundle_id(
    p: ProjectView,
    env: EnvView,
    disk: DiskView,
    d: int,
    programs: bool,
    e: int,
    b: int,
    id: Seq<char>,
)
    requires
        0 <= b < p.bundle_ids.len(),
        id == p.bundle_ids[b] || (p.bundle_ids[b] + "."@).is_prefix_of(id),
        ({
            let devices = child(env.home, "Library/Developer/CoreSimulator/Devices"@);
            &&& disk.list(devices) is Some
            &&& 0 <= d < disk.list(devices)->0.len()
            &&& disk.list(devices)->0[d].1 == NodeKind::Dir
            &&& ({
                let dir = child(
                    child(
                        child(child(devices, disk.list(devices)->0[d].0), "data/Containers"@),
                        if programs {
                            "Bundle"@
                        } else {
                            "Data"@
                        },
                    ),
                    "Application"@,
                );
                &&& disk.list(dir) is Some
                &&& 0 <= e < disk.list(dir)->0.len()
                &&& disk.list(dir)->0[e].1 == NodeKind::Dir
                &&& listed_text(
                    disk,
                    child(
                        child(dir, disk.list(dir)->0[e].0),
                        ".com.apple.mobile_container_manager.metadata.plist"@,
                    ),
                    "MCMMetadataIdentifier"@,
                    id,
                )
            })
        }),
    ensures
        ({
            let devices = child(env.home, "Library/Developer/CoreSimulator/Devices"@);
            let dir = child(
                child(
                    child(child(devices, disk.list(devices)->0[d].0), "data/Containers"@),
                    if programs {
                        "Bundle"@
                    } else {
                        "Data"@
                    },
                ),
                "Application"@,
            );
            holds_claim(
                simulator_claims(p, env, disk),
                p,
                child(dir, disk.list(dir)->0[e].0),
                EntryKind::Simulator,
                EvidenceTier::Exact,
                Some("xcode"@),
            )
        }),
{
    let devices = devices_in(env.home);
    let ds = disk.list(devices)->0;
    let x = lemma_picked(ds, entry_path(devices, true), d);
    let device = child(devices, ds[d].0);
    let kind = if programs {
        "Bundle"@
    } else {
        "Data"@
    };
    let dir = child(child(child(device, "data/Containers"@), kind), "Application"@);
    let es = disk.list(dir)->0;
    let y = lemma_picked(es, entry_path(dir, true), e);
    let at = child(dir, es[e].0);
    if id != p.bundle_ids[b] {
        assert(id.take((p.bundle_ids[b] + "."@).len() as int) =~= p.bundle_ids[b] + "."@);
    }
    assert(bundle_id_of(p.bundle_ids, id));
    let f = container_claim(p, disk, device_name(disk, device), kind == "Bundle"@);
    assert(id_of_container(disk, at, kind == "Bundle"@) == Some(id));
    let all = entry_paths(disk, dir, true);
    let z = lemma_picked(all, f, y);
    let first = containers_claims(p, disk, device, "Bundle"@);
    let second = containers_claims(p, disk, device, "Data"@);
    let both = device_claims(p, disk)(device);
    let n = if programs {
        z
    } else {
        first.len() + z
    };
    assert(both == first + second);
    assert(both[n].path == at);
    let j = lemma_in_flat(entry_paths(disk, devices, true), device_claims(p, disk), x, n);
    assert(simulator_claims(p, env, disk)[j] == both[n]);
}

/// The sessions that a coding agent held in a checkout of the project are the project's: by what the
/// sessions themselves say, or, where they say nothing, by the encoded path that their directory is
/// named after.
pub proof fn law_sessions_of_a_project(
    p: ProjectView,
    env: EnvView,
    disk: DiskView,
    e: int,
)
    requires
        ({
            let dir = child(child(env.home, env.agent.home_dir@), "projects"@);
            &&& disk.list(dir) is Some
            &&& 0 <= e < disk.list(dir)->0.len()
            &&& disk.list(dir)->0[e].1 == NodeKind::Dir
        }),
    ensures
        ({
            let dir = child(child(env.home, env.agent.home_dir@), "projects"@);
            let name = disk.list(dir)->0[e].0;
            let encoded = super::parsers::encoded_dir(p.root);
            &&& match dir_cwd(disk, child(dir, name), 5, 65536) {
                Some(cwd) => lies_in(p, canonical(path_of(cwd))) ==> holds_claim(
                    agents_claims(p, env, disk),
                    p,
                    child(dir, name),
                    EntryKind::AgentState,
                    EvidenceTier::Exact,
                    None,
                ),
                None => name == encoded || (encoded + "-"@).is_prefix_of(name) ==> holds_claim(
                    agents_claims(p, env, disk),
                    p,
                    child(dir, name),
                    EntryKind::AgentState,
                    EvidenceTier::NameMatch,
                    None,
                ),
            }
        }),
{
    let dir = sessions_in(env.agent, env.home);
    let l = disk.list(dir)->0;
    let name = l[e].0;
    let encoded = super::parsers::encoded_dir(p.root);
    let f = sessions_claim(env.agent, p, env.home, disk);
    let r = agents_claims(p, env, disk);
    if dir_cwd(disk, child(dir, name), 5, 65536) is Some {
        let cwd = dir_cwd(disk, child(dir, name), 5, 65536)->0;
        lemma_lies(p, canonical(path_of(cwd)));
    } else if (encoded + "-"@).is_prefix_of(name) {
        assert(name.take((encoded + "-"@).len() as int) =~= encoded + "-"@);
    }
    if f(l[e]) is Some {
        let j = lemma_picked(l, f, e);
        assert(of_entries(disk, dir, f)[j] == f(l[e])->0);
        assert(r[j] == f(l[e])->0);
    }
}

/// What an editor of the Visual Studio Code family keeps of a window is the project's, where the folder
/// or the workspace of that window lies in a checkout of it.
pub proof fn law_windows_of_a_project(
    p: ProjectView,
    env: EnvView,
    disk: DiskView,
    a: int,
    e: int,
    text: Seq<char>,
    uri: Seq<char>,
)
    requires
        0 <= a < vscode_family().len(),
        ({
            let dir = child(
                child(child(env.home, "Library/Application Support"@), vscode_family()[a]),
                "User/workspaceStorage"@,
            );
            &&& disk.list(dir) is Some
            &&& 0 <= e < disk.list(dir)->0.len()
            &&& disk.list(dir)->0[e].1 == NodeKind::Dir
            &&& disk.head(child(child(dir, disk.list(dir)->0[e].0), "workspace.json"@), 16384)
                == Some(text)
        }),
        json_document(text) is Some,
        field(json_document(text)->0, "folder"@) == Some(DocView::Text(uri)) || (field(
            json_document(text)->0,
            "folder"@,
        ) is None && field(json_document(text)->0, "workspace"@) == Some(DocView::Text(uri))),
        uri_target(uri) is Some,
        lies_in(p, canonical(uri_target(uri)->0)),
    ensures
        ({
            let dir = child(
                child(child(env.home, "Library/Application Support"@), vscode_family()[a]),
                "User/workspaceStorage"@,
            );
            holds_claim(
                editors_claims(p, env, disk),
                p,
                child(dir, disk.list(dir)->0[e].0),
                EntryKind::EditorState,
                EvidenceTier::Exact,
                None,
            )
        }),
{
    let app = vscode_family()[a];
    let dir = storage_dir(env.home, app);
    let l = disk.list(dir)->0;
    let x = lemma_picked(l, entry_path(dir, true), e);
    let at = child(dir, l[e].0);
    lemma_lies(p, canonical(uri_target(uri)->0));
    assert(folder_in(text) == uri_target(uri));
    let f = window_claim(p, disk, app);
    assert(f(at) is Some);
    let y = lemma_picked(entry_paths(disk, dir, true), f, x);
    let g = app_window_claims(p, env.home, disk);
    assert(g(app)[y].path == at);
    let j = lemma_in_flat(vscode_family(), g, a, y);
    assert(editors_claims(p, env, disk)[j] == g(app)[y]);
}

/// The editors of the Visual Studio Code family.
pub proof fn law_editors_of_the_family(name: Seq<char>)
    ensures
        (name == "Code"@ || name == "Code - Insiders"@ || name == "Cursor"@ || name
            == "Antigravity"@ || name == "VSCodium"@) <==> vscode_family().contains(name),
{
    let f = vscode_family();
    assert(f[0] == "Code"@ && f[1] == "Code - Insiders"@ && f[2] == "Cursor"@ && f[3]
        == "Antigravity"@ && f[4] == "VSCodium"@);
}

proof fn lemma_last_place(a: Seq<char>, b: Seq<char>, c: char)
    requires
        free_of(b, c),
    ensures
        after_last(a + seq![c] + b, c) == a.len() + 1,
        before_last(a + seq![c] + b, c) == Some(a),
    decreases b.len(),
{
    let s = a + seq![c] + b;
    if b.len() > 0 {
        assert(s.last() == b[b.len() - 1]);
        assert(s.drop_last() =~= a + seq![c] + b.drop_last());
        assert forall|i: int| 0 <= i < b.drop_last().len() implies #[trigger] b.drop_last()[i]
            != c by {
            assert(b[i] != c);
        }
        lemma_last_place(a, b.drop_last(), c);
    } else {
        assert(s.last() == c);
    }
    assert(s.take(a.len() as int) =~= a);
}

/// A directory of a JetBrains editor that is named after the project, with a point or a dash and a mark
/// behind the name, is the project's.
#[verifier::rlimit(40)]
pub proof fn law_editor_caches_named_after_a_project(
    p: ProjectView,
    env: EnvView,
    disk: DiskView,
    caches: bool,
    d: int,
    e: int,
    n: int,
    sep: char,
    mark: Seq<char>,
)
    requires
        0 <= n < p.names.len(),
        sep == '.' || (sep == '-' && free_of(p.names[n], '.') && free_of(mark, '.')),
        free_of(mark, sep),
        ({
            let root = child(
                env.home,
                if caches {
                    "Library/Caches/JetBrains"@
                } else {
                    "Library/Application Support/JetBrains"@
                },
            );
            &&& disk.list(root) is Some
            &&& 0 <= d < disk.list(root)->0.len()
            &&& disk.list(root)->0[d].1 == NodeKind::Dir
            &&& ({
                let dir = child(root, disk.list(root)->0[d].0);
                &&& disk.list(dir) is Some
                &&& 0 <= e < disk.list(dir)->0.len()
                &&& disk.list(dir)->0[e] == (p.names[n] + seq![sep] + mark, NodeKind::Dir)
            })
        }),
    ensures
        ({
            let root = child(
                env.home,
                if caches {
                    "Library/Caches/JetBrains"@
                } else {
                    "Library/Application Support/JetBrains"@
                },
            );
            holds_claim(
                editors_claims(p, env, disk),
                p,
                child(child(root, disk.list(root)->0[d].0), p.names[n] + seq![sep] + mark),
                EntryKind::EditorState,
                EvidenceTier::NameMatch,
                None,
            )
        }),
{
    let root = child(
        env.home,
        if caches {
            "Library/Caches/JetBrains"@
        } else {
            "Library/Application Support/JetBrains"@
        },
    );
    let name = p.names[n] + seq![sep] + mark;
    lemma_last_place(p.names[n], mark, sep);
    assert(p.names.contains(p.names[n]));
    if sep == '-' {
        lemma_no_last(name, '.');
    }
    assert(called_after(name, p.names) is Some);
    let ds = disk.list(root)->0;
    let x = lemma_picked(ds, entry_path(root, true), d);
    let dir = child(root, ds[d].0);
    let l = disk.list(dir)->0;
    let y = lemma_picked(l, editor_claim(p, dir), e);
    let g = editor_claims(p, disk);
    assert(g(dir)[y].path == child(dir, name));
    let j = lemma_in_flat(entry_paths(disk, root, true), g, x, y);
    let windows = flat(vscode_family(), app_window_claims(p, env.home, disk));
    let first = root_claims(p, disk, child(env.home, "Library/Caches/JetBrains"@));
    let r = editors_claims(p, env, disk);
    if caches {
        assert(r[windows.len() + j] == g(dir)[y]);
    } else {
        assert(r[windows.len() + first.len() + j] == g(dir)[y]);
    }
}

proof fn lemma_no_last(s: Seq<char>, c: char)
    requires
        free_of(s, c),
    ensures
        after_last(s, c) == 0,
    decreases s.len(),
{
    if s.len() > 0 {
        assert(s.last() == s[s.len() - 1]);
        assert forall|i: int| 0 <= i < s.drop_last().len() implies #[trigger] s.drop_last()[i]
            != c by {
            assert(s[i] != c);
        }
        lemma_no_last(s.drop_last(), c);
    }
}

/// What lies under one of the project's bundle identifiers in the library is the project's.
pub proof fn law_places_of_a_bundle_id(p: ProjectView, env: EnvView, disk: DiskView, b: int)
    requires
        0 <= b < p.bundle_ids.len(),
    ensures
        ({
            let id = p.bundle_ids[b];
            let r = named_claims(p, env, disk);
            let is = |rel: Seq<char>, kind: EntryKind|
                disk.stat(child(env.home, rel)) != Stat::Absent ==> holds_claim(
                    r,
                    p,
                    child(env.home, rel),
                    kind,
                    EvidenceTier::Exact,
                    None,
                );
            &&& is("Library/Containers/"@ + id, EntryKind::Container)
            &&& is("Library/Caches/"@ + id, EntryKind::Cache)
            &&& is("Library/HTTPStorages/"@ + id, EntryKind::WebData)
            &&& is("Library/Preferences/"@ + id + ".plist"@, EntryKind::Preferences)
            &&& is("Library/WebKit/"@ + id, EntryKind::WebData)
            &&& is("Library/Saved Application State/"@ + id + ".savedState"@, EntryKind::SavedState)
        }),
{
    let id = p.bundle_ids[b];
    let places = bundle_places(id);
    let f = bundle_claim(p, id, env.home, disk);
    let g = bundle_claims(p, env.home, disk);
    let r = named_claims(p, env, disk);
    let first = flat(cache_parents(), cache_claims_in(p, env.trees, env.home));
    let second = flat(p.bundle_ids, g);
    assert forall|i: int| 0 <= i < 6 && disk.stat(child(env.home, (#[trigger] places[i]).0))
        != Stat::Absent implies holds_claim(
        r,
        p,
        child(env.home, places[i].0),
        places[i].1,
        EvidenceTier::Exact,
        None,
    ) by {
        let k = lemma_picked(places, f, i);
        let j = lemma_in_flat(p.bundle_ids, g, b, k);
        assert(r[first.len() + j] == second[j]);
    }
    assert(places[0].0 == "Library/Containers/"@ + id);
    assert(places[1].0 == "Library/Caches/"@ + id);
    assert(places[2].0 == "Library/HTTPStorages/"@ + id);
    assert(places[3].0 == "Library/Preferences/"@ + id + ".plist"@);
    assert(places[4].0 == "Library/WebKit/"@ + id);
    assert(places[5].0 == "Library/Saved Application State/"@ + id + ".savedState"@);
}

/// A cache that is called like the project, case and the choice between dash and underscore aside, is
/// the project's, where the name tells something.
pub proof fn law_caches_named_after_a_project(
    p: ProjectView,
    env: EnvView,
    disk: DiskView,
    c: int,
    node: DirView,
    k: int,
    n: int,
)
    requires
        0 <= n < p.names.len(),
        telling_name(p.names[n]),
        0 <= c < cache_parents().len(),
        node_in(env.trees, child(env.home, cache_parents()[c])) == Some(node),
        0 <= k < node.children.len(),
        lowered(node.children[k].name) == lowered(p.names[n]) || lowered(node.children[k].name)
            == swapped(lowered(p.names[n]), '-', '_') || lowered(node.children[k].name) == swapped(
            lowered(p.names[n]),
            '_',
            '-',
        ),
    ensures
        holds_claim(
            named_claims(p, env, disk),
            p,
            child(child(env.home, cache_parents()[c]), node.children[k].name),
            EntryKind::ProjectCache,
            EvidenceTier::NameMatch,
            None,
        ),
{
    let rel = cache_parents()[c];
    let dir = child(env.home, rel);
    let x = node.children[k].name;
    let l = lowered(p.names[n]);
    let v = name_variants(p.names[n]);
    assert(v[0] == l);
    if !has_char(l, '-') {
        lemma_nothing_swapped(l, '-', '_');
    } else {
        assert(v[1] == swapped(l, '-', '_'));
    }
    if !has_char(l, '_') {
        lemma_nothing_swapped(l, '_', '-');
    } else {
        assert(v[v.len() - 1] == swapped(l, '_', '-'));
    }
    assert(v.contains(lowered(x)));
    assert(is_candidate(p.names, lowered(x)));
    let names = dirs_in(env.trees, dir);
    assert(names[k] == x);
    let y = lemma_picked(names, cache_claim(p, dir), k);
    let g = cache_claims_in(p, env.trees, env.home);
    let j = lemma_in_flat(cache_parents(), g, c, y);
    assert(named_claims(p, env, disk)[j] == flat(cache_parents(), g)[j]);
}

proof fn lemma_nothing_swapped(s: Seq<char>, a: char, b: char)
    requires
        !has_char(s, a),
    ensures
        swapped(s, a, b) == s,
{
    crate::text::lemma_span(s, crate::text::other_than(a));
    assert forall|i: int| 0 <= i < s.len() implies s[i] != a by {
        assert(crate::text::other_than(a)(s[i]));
    }
    assert(swapped(s, a, b) =~= s);
}

/// The build directory that `.cargo/config.toml` sets is the project's.
pub proof fn law_a_configured_target_directory(
    p: ProjectView,
    env: EnvView,
    disk: DiskView,
    text: Seq<char>,
    build: DocView,
    value: Seq<char>,
)
    requires
        disk.head(child(p.root, ".cargo/config.toml"@), 262144) == Some(text),
        toml_document(text) is Some,
        field(toml_document(text)->0, "build"@) == Some(build),
        field(build, "target-dir"@) == Some(DocView::Text(value)),
    ensures
        holds_claim(
            redirected_claims(p, env, disk),
            p,
            target_dir(value, env.home, p.root),
            EntryKind::Artifacts,
            EvidenceTier::Exact,
            Some("rust"@),
        ),
{
    let c = config_claims(p, env.home, disk);
    assert(c.len() == 1);
    assert(redirected_claims(p, env, disk)[0] == c[0]);
}

/// A store of pnpm that links the project is claimed by it, whether it lies in the store directory
/// itself or in a directory of that.
#[verifier::rlimit(40)]
pub proof fn law_pnpm_stores_that_link_a_project(
    p: ProjectView,
    env: EnvView,
    disk: DiskView,
    s: int,
    e: int,
    i: int,
    target: Seq<Seq<char>>,
)
    requires
        disk.stat(child(p.root, "package.json"@)) != Stat::Absent,
        0 <= s < 3,
        ({
            let root = child(
                env.home,
                if s == 0 {
                    "Library/pnpm/store"@
                } else if s == 1 {
                    ".local/share/pnpm/store"@
                } else {
                    ".pnpm-store"@
                },
            );
            &&& disk.list(root) is Some
            &&& 0 <= e < disk.list(root)->0.len()
            &&& ({
                let dir = child(root, disk.list(root)->0[e].0);
                let links = child(dir, "projects"@);
                &&& disk.stat(dir) == Stat::Dir
                &&& disk.stat(links) == Stat::Dir
                &&& disk.list(links) is Some
                &&& 0 <= i < disk.list(links)->0.len()
                &&& leads_to(disk, links, disk.list(links)->0[i].0) == Some(target)
            })
        }),
        canonical(p.root).is_prefix_of(target),
    ensures
        ({
            let root = child(
                env.home,
                if s == 0 {
                    "Library/pnpm/store"@
                } else if s == 1 {
                    ".local/share/pnpm/store"@
                } else {
                    ".pnpm-store"@
                },
            );
            holds_claim(
                node_claims(p, env, disk),
                p,
                child(root, disk.list(root)->0[e].0),
                EntryKind::PackageCache,
                EvidenceTier::Exact,
                Some("node"@),
            )
        }),
{
    let all = stores(p.root, env.home, disk);
    let root = all[s];
    let names = names_in(disk, root);
    let dir = child(root, disk.list(root)->0[e].0);
    let links = child(dir, "projects"@);
    let inner = names_in(disk, links);
    assert(names[e] == disk.list(root)->0[e].0);
    assert(inner[i] == disk.list(links)->0[i].0);
    assert(target.take(canonical(p.root).len() as int) =~= canonical(p.root));
    assert(leads_to(disk, links, inner[i]) == Some(target));
    assert(links_into(disk, links, canonical(p.root)));
    assert(keeps_links(disk, dir));
    let o = outer_store(disk, root);
    assert(o(names[e])[0] == dir);
    let x = lemma_in_flat(names, o, e, 0);
    let dirs = projects_dirs(disk, root);
    let y = lemma_picked(dirs, store_claim(p, disk), x);
    let g = store_claims(p, disk);
    let j = lemma_in_flat(all, g, s, y);
    let a = pnpm_claims_of(p, env.home, disk);
    assert(a[j].path == dir);
    assert(node_claims(p, env, disk)[j] == a[j].tagged("node"@));
}

proof fn lemma_repo_claimed(p: ProjectView, kept: Seq<(Seq<char>, Seq<Seq<char>>)>, k: int)
    requires
        0 <= k < kept.len(),
    ensures
        holds_claim(
            repo_claims(p, kept),
            p,
            kept[k].1,
            EntryKind::PackageCache,
            EvidenceTier::Exact,
            Some("swift"@),
        ),
    decreases kept.len(),
{
    let f = kept.drop_last();
    let r = repo_claims(p, kept);
    let b = repo_claims(p, f);
    let dir = kept.last().1;
    if k < f.len() {
        assert(f[k] == kept[k]);
        lemma_repo_claimed(p, f, k);
        let j = choose|j: int|
            0 <= j < b.len() && (#[trigger] b[j]).path == kept[k].1 && b[j].owner == path_text(
                p.root,
            ) && b[j].kind == EntryKind::PackageCache && b[j].tier == EvidenceTier::Exact
                && b[j].ecosystem == Some("swift"@) && !b[j].baseline && !b[j].clone_of_store
                && !b[j].virtual_bytes && !b[j].stale;
        assert(r[j] == b[j]);
    } else if exists|i: int| 0 <= i < kept.len() - 1 && (#[trigger] kept[i]).1 == dir {
        let i = choose|i: int| 0 <= i < kept.len() - 1 && (#[trigger] kept[i]).1 == dir;
        lemma_repo_claimed(p, f, i);
        assert(f[i] == kept[i]);
    } else {
        assert(r[b.len() as int].path == dir);
    }
}

/// A package that `Package.resolved` pins is claimed where SwiftPM keeps its repository: in the first
/// directory that is called like the repository, case aside, with a dash and a mark behind it.
pub proof fn law_pinned_repositories_are_claimed(
    p: ProjectView,
    env: EnvView,
    disk: DiskView,
    text: Seq<char>,
    n: int,
    name: Seq<char>,
    e: int,
)
    requires
        disk.head(child(p.root, "Package.resolved"@), 524288) == Some(text),
        json_document(text) is Some,
        0 <= n < pins_in(json_document(text)->0).len(),
        swift_repo(pins_in(json_document(text)->0)[n].1) == Some(name),
        ({
            let dir = child(env.home, "Library/Caches/org.swift.swiftpm/repositories"@);
            &&& disk.list(dir) is Some
            &&& 0 <= e < disk.list(dir)->0.len()
            &&& (lowered(name) + "-"@).is_prefix_of(lowered(disk.list(dir)->0[e].0))
            &&& forall|i: int|
                0 <= i < e ==> !(lowered(name) + "-"@).is_prefix_of(
                    lowered((#[trigger] disk.list(dir)->0[i]).0),
                )
        }),
    ensures
        ({
            let dir = child(env.home, "Library/Caches/org.swift.swiftpm/repositories"@);
            holds_claim(
                swiftpm_claims(p, env, disk),
                p,
                child(dir, disk.list(dir)->0[e].0),
                EntryKind::PackageCache,
                EvidenceTier::Exact,
                Some("swift"@),
            )
        }),
{
    let dir = repositories_in(env.home);
    let l = disk.list(dir)->0;
    let f = repo_entry(dir, name);
    let want = lowered(name) + "-"@;
    assert forall|i: int| 0 <= i < e implies f(#[trigger] l[i]) is None by {
        let x = lowered(l[i].0);
        if starts(x, want) {
            assert(x.subrange(0, want.len() as int) =~= x.take(want.len() as int));
        }
    }
    assert(lowered(l[e].0).take(want.len() as int) =~= want);
    lemma_first_given(l, f, e);
    assert(repo_dir(disk, dir, name) == Some(child(dir, l[e].0)));
    let pins = pins_in(json_document(text)->0);
    let files = resolved_files(p.root, env);
    let g = kept_pins(disk, dir);
    let a = lemma_picked(pins, kept_pin(disk, dir), n);
    assert(g(files[0]) == pins.filter_map(kept_pin(disk, dir)));
    assert(g(files[0])[a].1 == child(dir, l[e].0));
    let k = lemma_in_flat(files, g, 0, a);
    lemma_repo_claimed(p, flat(files, g), k);
}

/// Sessions that were held in a directory that is gone are nobody's.
pub proof fn law_sessions_without_a_directory(env: EnvView, disk: DiskView, e: int, cwd: Seq<char>)
    requires
        ({
            let dir = child(child(env.home, env.agent.home_dir@), "projects"@);
            &&& disk.list(dir) is Some
            &&& 0 <= e < disk.list(dir)->0.len()
            &&& disk.list(dir)->0[e].1 == NodeKind::Dir
            &&& dir_cwd(disk, child(dir, disk.list(dir)->0[e].0), 5, 65536) == Some(cwd)
        }),
        disk.stat(canonical(path_of(cwd))) == Stat::Absent,
    ensures
        ({
            let dir = child(child(env.home, env.agent.home_dir@), "projects"@);
            let r = agents_state(env, disk);
            exists|j: int|
                0 <= j < r.len() && (#[trigger] r[j]).path == child(dir, disk.list(dir)->0[e].0)
                    && r[j].owner == "unattributed"@ && r[j].tier == EvidenceTier::Observed
                    && r[j].kind == EntryKind::AgentState && !r[j].baseline
        }),
{
    let dir = sessions_in(env.agent, env.home);
    let l = disk.list(dir)->0;
    let f = orphan_claim(env.agent, env.home, disk);
    let k = lemma_picked(l, f, e);
    let c = of_entries(disk, dir, f);
    let r = agents_state(env, disk);
    let n = r.len() - c.len();
    assert(r[n + k] == c[k]);
}

/// Codex's sessions are a project's only where their files say that they were held in a checkout of it.
pub proof fn law_codex_sessions_are_held_in_the_project(
    p: ProjectView,
    home: Seq<Seq<char>>,
    disk: DiskView,
    j: int,
)
    requires
        0 <= j < codex_claims_of(p, home, disk).len(),
    ensures
        ({
            let c = codex_claims_of(p, home, disk)[j];
            let text = disk.head(c.path, 16384);
            &&& c.owner == path_text(p.root)
            &&& text is Some && cwd_in(text->0) is Some && lies_in(
                p,
                canonical(path_of(cwd_in(text->0)->0)),
            )
        }),
{
    let a = session_files_of(disk, home);
    let b = archive_files_of(disk, home);
    let f = rollout_claim(p, disk);
    let g = codex_claim(p, disk);
    let first = a.filter_map(f);
    let at = if j < first.len() {
        let i = lemma_picked_from(a, f, j);
        a[i]
    } else {
        let i = lemma_picked_from(b, g, j - first.len());
        b[i]
    };
    assert(codex_claims_of(p, home, disk)[j].path == at);
    let cwd = cwd_in(disk.head(at, 16384)->0)->0;
    lemma_lies(p, canonical(path_of(cwd)));
}

} // verus!
