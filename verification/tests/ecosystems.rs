use macaudit::attribution::bus::Snapshot;
use macaudit::attribution::model::{
    AgentNames, Axis, Claim, EntryKind, EvidenceTier, ProcKind, ResolveEnv, BASELINE_OWNER,
    UNATTRIBUTED_OWNER,
};
use macaudit::attribution::projects::discovery::discover;
use macaudit::attribution::projects::names::collect;
use macaudit::attribution::projects::resolvers::{
    agents, all, all_baseline, artifacts, brew, caches, docker, editors, go, node, procs, python,
    rust, simulator, swiftpm, xcode,
};
use macaudit::attribution::projects::resolvers::derive::{
    npm_blob, npm_cacache, scan_npm_index, NpmEntry, NpmMemo,
};
use macaudit::attribution::projects::resolvers::joins::{artifacts as joined_artifacts, docker_unlinked};
use macaudit::attribution::projects::resolvers::parsers::Key;
use macaudit::attribution::projects::Project;
use macaudit::attribution::{
    bucket_findings, footprint_finding, missing_deps, of_scan, resolve_axis, SystemFacts,
    APP_STORAGE_DEPS,
};
use macaudit::attribution::lsof::OpenFile;
use macaudit::disk::{Disk, Listed, NodeKind, Stat, Want};
use macaudit::doc::{put_entry, table_doc, text_doc, Doc};
use macaudit::fspath::FilePath;
use macaudit::pathmap::PathMap;
use macaudit::scan::{DirNode, DirTree, Finding, FindingId, FindingKind, ScannerId, Severity};

const HOME: &str = "/Users/dev";
const ROOT: &str = "/Users/dev/cubby";

const AGENT: AgentNames = AgentNames {
    cli_cache_id: "clyde-cli-cache",
    sessions_id: "clyde-sessions",
    title: "Clyde",
    home_dir: ".clyde",
    sessions_root: "~/.clyde/projects",
    state_pattern: "~/.clyde/*",
    session_evidence: "Clyde session cwd",
    sessions_label: "Clyde sessions",
    cli_cache_label: "Clyde CLI cache",
    state_evidence: "Clyde state",
    cli_cache: "clyde-cli-nodejs",
    tool_owner: "tool:clyde",
    tool_reason: "the cache dir name doesn't match the tool name",
};

fn path(text: &str) -> FilePath {
    FilePath::from_text(text)
}

struct Node {
    kind: NodeKind,
    text: String,
}

struct Tree {
    nodes: std::collections::BTreeMap<String, Node>,
}

impl Tree {
    fn new() -> Tree {
        Tree { nodes: std::collections::BTreeMap::new() }
    }

    fn put(mut self, at: &str, kind: NodeKind, text: &str) -> Tree {
        let mut above = String::new();
        for part in at.split('/').skip(1) {
            if !above.is_empty() {
                let node = Node { kind: NodeKind::Dir, text: String::new() };
                self.nodes.entry(above.clone()).or_insert(node);
            }
            above = format!("{above}/{part}");
        }
        self.nodes.insert(at.to_string(), Node { kind, text: text.to_string() });
        self
    }

    fn file(self, at: &str, text: &str) -> Tree {
        self.put(at, NodeKind::File, text)
    }

    fn dir(self, at: &str) -> Tree {
        self.put(at, NodeKind::Dir, "")
    }

    fn link(self, at: &str, target: &str) -> Tree {
        self.put(at, NodeKind::Link, target)
    }

    fn disk(&self) -> Disk {
        let mut disk = Disk::new();
        for (at, node) in &self.nodes {
            let p = path(at);
            match node.kind {
                NodeKind::Dir => {
                    let prefix = format!("{at}/");
                    let entries = self
                        .nodes
                        .iter()
                        .filter_map(|(other, n)| {
                            let name = other.strip_prefix(&prefix)?;
                            (!name.contains('/'))
                                .then_some(Listed { name: name.to_string(), kind: n.kind })
                        })
                        .collect();
                    disk.stats.set(p.copy(), Stat::Dir);
                    disk.listings.set(p, Some(entries));
                }
                NodeKind::Link => {
                    disk.stats.set(p.copy(), Stat::Other);
                    disk.links.set(p, Some(path(&node.text)));
                }
                _ => {
                    disk.stats.set(p.copy(), Stat::File);
                    disk.set_head(p.copy(), Some(node.text.clone()));
                    disk.texts.set(p.copy(), Some(node.text.clone()));
                    disk.blobs.set(p.copy(), Some(node.text.clone().into_bytes()));
                    disk.sizes.set(p, Some(4096));
                }
            }
        }
        disk
    }

    fn node(&self, at: &str, name: &str) -> DirNode {
        let prefix = format!("{at}/");
        let children: Vec<DirNode> = self
            .nodes
            .iter()
            .filter(|(_, n)| n.kind == NodeKind::Dir)
            .filter_map(|(other, _)| {
                let name = other.strip_prefix(&prefix)?;
                (!name.contains('/')).then(|| self.node(other, name))
            })
            .collect();
        let files = self
            .nodes
            .iter()
            .filter(|(other, n)| n.kind == NodeKind::File && other.starts_with(&prefix))
            .count() as u64;
        DirNode {
            name: name.to_string(),
            alloc: files * 4096,
            apparent: files * 4096,
            files,
            dirs: children.len() as u64,
            errors: 0,
            children,
        }
    }

    fn walked(&self) -> Vec<DirTree> {
        let node = self.node(HOME, HOME);
        vec![DirTree { root: path(HOME), bytes: node.alloc, node, complete: true }]
    }
}

fn finding(kind: FindingKind, section: ScannerId, title: &str, at: Option<&str>, meta: Doc) -> Finding {
    Finding {
        id: FindingId::new(kind, title),
        kind,
        section,
        group: String::new(),
        title: title.to_string(),
        detail: String::new(),
        path: at.map(path),
        size_bytes: Some(100),
        last_used: None,
        severity: Severity::Info,
        remedies: Vec::new(),
        provenance: None,
        coverage: None,
        meta,
    }
}

fn meta(pairs: &[(&str, &str)]) -> Doc {
    let mut entries: Vec<(String, Doc)> = Vec::new();
    for (k, v) in pairs {
        put_entry(&mut entries, k, text_doc(v));
    }
    table_doc(entries)
}

fn number(n: u64) -> Doc {
    Doc::Number { unsigned: Some(n), signed: Some(n as i64), text: n.to_string() }
}

fn env(tree: &Tree, sections: Vec<(ScannerId, Vec<Finding>)>) -> ResolveEnv {
    let snapshots = sections
        .into_iter()
        .map(|(id, findings)| (id, Snapshot { gen: 1, findings, dir_trees: Vec::new() }))
        .collect();
    ResolveEnv::new(path(HOME), tree.walked(), snapshots, AGENT)
}

fn project() -> Project {
    Project {
        root: path(ROOT),
        name: "cubby".to_string(),
        worktrees: vec![path("/Users/dev/cubby-wt")],
        names: vec!["cubby".to_string()],
        bundle_ids: vec!["com.example.cubby".to_string()],
        is_git: true,
    }
}

fn shown(claims: &[Claim]) -> Vec<(String, String, String)> {
    claims
        .iter()
        .map(|c| (c.path.text(), c.evidence.clone(), c.label.clone()))
        .collect()
}

fn row(at: &str, evidence: &str, label: &str) -> (String, String, String) {
    (at.to_string(), evidence.to_string(), label.to_string())
}

#[test]
fn pnpm_stores_that_link_into_the_project_are_claimed() {
    let tree = Tree::new()
        .file("/Users/dev/cubby/package.json", "{}")
        .dir("/Users/dev/cubby/node_modules/.pnpm")
        .file("/Users/dev/cubby/node_modules/.modules.yaml", "storeDir: '/opt/store'\n")
        .link("/opt/store/v10/v11/projects/abc", "../../../../../Users/dev/cubby/apps/api")
        .link("/Users/dev/Library/pnpm/store/v3/projects/def", "/Users/dev/other");
    let claims = node::resolve(&project(), &env(&tree, Vec::new()), &mut tree.disk());
    assert_eq!(
        shown(&claims),
        vec![
            row("/opt/store/v10/v11", "pnpm store links this project", "pnpm store v11"),
            row(
                "/Users/dev/cubby/node_modules/.pnpm",
                "node_modules/.pnpm is a reflink clone of the pnpm store",
                "node_modules/.pnpm (clone of store)",
            ),
        ]
    );
    assert!(claims[1].clone_of_store);
    assert!(claims.iter().all(|c| c.ecosystem == Some("node") && c.owner == ROOT));
}

#[test]
fn a_project_without_a_package_json_claims_nothing_of_node() {
    let tree = Tree::new().dir("/Users/dev/cubby/node_modules/.pnpm");
    assert!(node::resolve(&project(), &env(&tree, Vec::new()), &mut tree.disk()).is_empty());
}

#[test]
fn locked_packages_are_found_in_the_caches_of_npm_yarn_and_bun() {
    let lock = r#"{"packages": {"node_modules/lodash": {"version": "4.17.21"}}}"#;
    let index = "\n0a\t{\"key\":\"pacote:tarball:https://r/lodash/-/lodash-4.17.21.tgz\",\"integrity\":\"sha512-aGk=\"}\n0b\t{\"key\":\"https://r/other/-/other-1.0.0.tgz\",\"integrity\":\"sha512-aGk=\"}\n";
    let tree = Tree::new()
        .file("/Users/dev/cubby/package.json", "{}")
        .file("/Users/dev/cubby/package-lock.json", lock)
        .file("/Users/dev/.npm/_cacache/index-v5/00/11/abc", index)
        .file("/Users/dev/cubby/yarn.lock", "  resolution: \"@babel/core@npm:7.20.0\"\n")
        .file("/Users/dev/Library/Caches/Yarn/berry/cache/@babel-core-npm-7.20.0-abc.zip", "")
        .file("/Users/dev/cubby/bun.lock", "// comment\n{\"packages\": {\"x\": [\"x@1.2.3\"]}}")
        .dir("/Users/dev/.bun/install/cache/x@1.2.3@@@1");
    let claims = node::resolve(&project(), &env(&tree, Vec::new()), &mut tree.disk());
    assert_eq!(
        shown(&claims),
        vec![
            row(
                "/Users/dev/.npm/_cacache/content-v2/sha512/68/69",
                "package-lock.json",
                "lodash 4.17.21",
            ),
            row(
                "/Users/dev/Library/Caches/Yarn/berry/cache/@babel-core-npm-7.20.0-abc.zip",
                "yarn.lock",
                "@babel/core 7.20.0",
            ),
            row("/Users/dev/.bun/install/cache/x@1.2.3@@@1", "bun.lock", "x 1.2.3"),
        ]
    );
}

#[test]
fn the_pinned_node_version_is_the_highest_that_goes_on_from_the_pin() {
    let tree = Tree::new()
        .file("/Users/dev/cubby/package.json", "{\"volta\": {\"node\": \"18\"}}")
        .file("/Users/dev/cubby/.nvmrc", "lts/*\n")
        .file("/Users/dev/cubby/.tool-versions", "ruby 3.2\nnodejs 20.1\n")
        .dir("/Users/dev/.nvm/versions/node/v20.1.3")
        .dir("/Users/dev/.volta/tools/image/node/20.1.11")
        .dir("/Users/dev/.volta/tools/image/node/20.11.0");
    let claims = node::resolve(&project(), &env(&tree, Vec::new()), &mut tree.disk());
    assert_eq!(
        shown(&claims),
        vec![row(
            "/Users/dev/.volta/tools/image/node/20.1.11",
            "node version pin",
            "node v20.1.11",
        )]
    );
}

#[test]
fn what_node_keeps_for_all_is_claimed_once() {
    let tree = Tree::new()
        .dir("/Users/dev/Library/pnpm/global")
        .dir("/Users/dev/Library/Caches/pnpm/metadata-v1")
        .dir("/Users/dev/Library/Caches/pnpm/other")
        .dir("/Users/dev/.npm/_logs");
    let formula =
        finding(FindingKind::BrewFormula, ScannerId::Brew, "node", Some("/opt/homebrew/Cellar/node"), Doc::Null);
    let env = env(&tree, vec![(ScannerId::Brew, vec![formula])]);
    let claims = node::baseline(&env, &mut tree.disk());
    let labels: Vec<&str> = claims.iter().map(|c| c.label.as_str()).collect();
    assert_eq!(
        labels,
        vec!["Library/pnpm/global", "metadata-v1", "npm logs", "node (Homebrew default)"]
    );
    assert!(claims.iter().all(|c| c.baseline && c.owner == BASELINE_OWNER));
}

const CARGO_LOCK: &str = "[[package]]\nname = \"serde\"\nversion = \"1.0.1\"\nsource = \"registry+https://x\"\n\n[[package]]\nname = \"core\"\nversion = \"0.1.0\"\nsource = \"git+https://g/cubby-core.git?branch=main#dead\"\n\n[[package]]\nname = \"own\"\nversion = \"0.1.0\"\n";

#[test]
fn crates_of_every_lock_file_are_claimed() {
    let tree = Tree::new()
        .file("/Users/dev/cubby/ffi/Cargo.lock", CARGO_LOCK)
        .file("/Users/dev/cubby/target/Cargo.lock", CARGO_LOCK)
        .file("/Users/dev/.cargo/registry/cache/index-1/serde-1.0.1.crate", "")
        .dir("/Users/dev/.cargo/registry/src/index-1/serde-1.0.1")
        .dir("/Users/dev/.cargo/git/checkouts/cubby-core-abc")
        .dir("/Users/dev/.cargo/git/db/cubby-corex");
    let claims = rust::resolve(&project(), &env(&tree, Vec::new()), &mut tree.disk());
    assert_eq!(
        shown(&claims),
        vec![
            row(
                "/Users/dev/.cargo/registry/cache/index-1/serde-1.0.1.crate",
                "Cargo.lock in ffi/",
                "serde 1.0.1",
            ),
            row(
                "/Users/dev/.cargo/registry/src/index-1/serde-1.0.1",
                "Cargo.lock in ffi/",
                "serde 1.0.1",
            ),
            row(
                "/Users/dev/.cargo/git/checkouts/cubby-core-abc",
                "Cargo.lock in ffi/",
                "core 0.1.0",
            ),
        ]
    );
    assert_eq!(claims[2].tier, EvidenceTier::NameMatch);
}

#[test]
fn a_pinned_toolchain_is_the_last_of_its_channel() {
    let tree = Tree::new()
        .file("/Users/dev/cubby/rust-toolchain.toml", "[toolchain]\nchannel = \"stable\"\n")
        .dir("/Users/dev/.rustup/toolchains/stable-aarch64-apple-darwin")
        .dir("/Users/dev/.rustup/toolchains/stable-x86_64-apple-darwin")
        .dir("/Users/dev/.rustup/toolchains/nightly-x86_64-apple-darwin");
    let claims = rust::resolve(&project(), &env(&tree, Vec::new()), &mut tree.disk());
    assert_eq!(
        shown(&claims),
        vec![row(
            "/Users/dev/.rustup/toolchains/stable-x86_64-apple-darwin",
            "rust-toolchain pins stable",
            "stable-x86_64-apple-darwin",
        )]
    );
}

#[test]
fn the_default_toolchain_belongs_to_all() {
    let tree = Tree::new()
        .file("/Users/dev/.rustup/settings.toml", "default_toolchain = \"stable\"\n")
        .dir("/Users/dev/.rustup/toolchains/stable")
        .dir("/Users/dev/.cargo/bin");
    let claims = rust::baseline(&env(&tree, Vec::new()), &mut tree.disk());
    let labels: Vec<&str> = claims.iter().map(|c| c.label.as_str()).collect();
    assert_eq!(labels, vec!["stable", "cargo bin"]);
}

#[test]
fn redirected_target_directories_are_claimed() {
    let tree = Tree::new()
        .file("/Users/dev/cubby/.cargo/config.toml", "[build]\ntarget-dir = \"~/.cache/a\"\n")
        .file(
            "/Users/dev/cubby/package.json",
            "{\"scripts\": {\"b\": \"CARGO_TARGET_DIR='/tmp/b' cargo build; CARGO_TARGET_DIR=c x\"}}",
        )
        .file("/Users/dev/cubby/apps/build.sh", "export CARGO_TARGET_DIR=${CARGO_TARGET_DIR:-$HOME/d}\n")
        .file("/Users/dev/cubby/node_modules/x.sh", "CARGO_TARGET_DIR=e\n");
    let claims =
        artifacts::cargo_target_dir_claims(&project(), &env(&tree, Vec::new()), &mut tree.disk());
    assert_eq!(
        shown(&claims),
        vec![
            row("/Users/dev/.cache/a", "target-dir in .cargo/config.toml", "a"),
            row("/tmp/b", "CARGO_TARGET_DIR in package.json", "b"),
            row("/Users/dev/cubby/c", "CARGO_TARGET_DIR in package.json", "c"),
            row("/Users/dev/d", "CARGO_TARGET_DIR in apps/build.sh", "d"),
        ]
    );
}

#[test]
fn pinned_swift_repositories_are_claimed_once() {
    let pins = r#"{"version": 2, "pins": [{"identity": "algo", "location": "https://g/Swift-Algo.git"}]}"#;
    let tree = Tree::new()
        .file("/Users/dev/cubby/Package.resolved", pins)
        .file("/Users/dev/cubby/App.xcworkspace/xcshareddata/swiftpm/Package.resolved", pins)
        .dir("/Users/dev/Library/Caches/org.swift.swiftpm/repositories/swift-algo-12ab");
    let env = env(&tree, Vec::new());
    let claims = swiftpm::resolve(&project(), &env, &mut tree.disk());
    assert_eq!(
        shown(&claims),
        vec![row(
            "/Users/dev/Library/Caches/org.swift.swiftpm/repositories/swift-algo-12ab",
            "Package.resolved",
            "algo",
        )]
    );
    assert_eq!(swiftpm::baseline(&env).len(), 2);
}

fn plist(pairs: &[(&str, &str)]) -> String {
    let body: Vec<String> =
        pairs.iter().map(|(k, v)| format!("<key>{k}</key><string>{v}</string>")).collect();
    format!(
        "<?xml version=\"1.0\" encoding=\"UTF-8\"?><plist version=\"1.0\"><dict>{}</dict></plist>",
        body.concat()
    )
}

#[test]
fn build_output_belongs_to_the_project_of_its_workspace() {
    let data = "/Users/dev/Library/Developer/Xcode/DerivedData";
    let tree = Tree::new()
        .file("/Users/dev/cubby/Package.swift", "")
        .file(
            &format!("{data}/Cubby-abc/info.plist"),
            &plist(&[("WorkspacePath", "/Users/dev/cubby/App.xcodeproj")]),
        )
        .file(&format!("{data}/Gone-def/info.plist"), &plist(&[("WorkspacePath", "/Users/dev/gone/x")]))
        .dir(&format!("{data}/ModuleCache.noindex"))
        .dir("/Users/dev/Library/Developer/Xcode/iOS DeviceSupport");
    let cache = finding(
        FindingKind::CacheDir,
        ScannerId::Fs,
        "derived",
        Some(&format!("{data}/Cubby-abc")),
        Doc::Null,
    );
    let id = cache.id;
    let env = env(&tree, vec![(ScannerId::Fs, vec![cache])]);
    let claims = xcode::resolve(&project(), &env, &mut tree.disk());
    assert_eq!(
        shown(&claims),
        vec![row(&format!("{data}/Cubby-abc"), "DerivedData WorkspacePath", "DerivedData Cubby")]
    );
    assert_eq!(claims[0].finding, Some(id));

    let mut disk = tree.disk();
    disk.stats.set(path("/Users/dev/cubby/App.xcodeproj"), Stat::Dir);
    let common = xcode::baseline(&env, &mut disk);
    assert_eq!(common.len(), 8);
    assert_eq!(common[0].owner, UNATTRIBUTED_OWNER);
    assert_eq!(common[0].evidence, "workspace deleted: /Users/dev/gone/x");
    assert!(common[0].stale);
    assert_eq!(common[1].label, "ModuleCache.noindex");
    assert_eq!(common[7].label, "iOS DeviceSupport");
}

#[test]
fn apps_in_simulators_are_claimed_by_bundle_id() {
    let device = "/Users/dev/Library/Developer/CoreSimulator/Devices/ABCD";
    let meta_name = ".com.apple.mobile_container_manager.metadata.plist";
    let tree = Tree::new()
        .file(
            &format!("{device}/device.plist"),
            &plist(&[("name", "iPhone 15"), ("runtime", "com.apple.CoreSimulator.SimRuntime.iOS-17-0")]),
        )
        .file(
            &format!("{device}/data/Containers/Bundle/Application/E1/Cubby.app/Info.plist"),
            &plist(&[("CFBundleIdentifier", "com.example.cubby")]),
        )
        .file(
            &format!("{device}/data/Containers/Data/Application/F2/{meta_name}"),
            &plist(&[("MCMMetadataIdentifier", "com.example.cubby.widget")]),
        )
        .file(
            &format!("{device}/data/Containers/Data/Application/G3/{meta_name}"),
            &plist(&[("MCMMetadataIdentifier", "com.example.other")]),
        );
    let env = env(&tree, Vec::new());
    let claims = simulator::resolve(&project(), &env, &mut tree.disk());
    assert_eq!(
        shown(&claims),
        vec![
            row(
                &format!("{device}/data/Containers/Bundle/Application/E1"),
                "installed in simulator iPhone 15",
                "com.example.cubby on iPhone 15",
            ),
            row(
                &format!("{device}/data/Containers/Data/Application/F2"),
                "installed in simulator iPhone 15",
                "com.example.cubby.widget on iPhone 15",
            ),
        ]
    );
    let common = simulator::baseline(&env, &mut tree.disk());
    assert_eq!(common.len(), 1);
    assert!(common[0].label.contains("iPhone 15") && common[0].label.contains("iOS 17.0"));
}

#[test]
fn sessions_of_agents_are_claimed_by_their_working_directory() {
    let tree = Tree::new()
        .file("/Users/dev/.clyde/projects/one/a.jsonl", "{\"cwd\":\"/Users/dev/cubby/apps\"}")
        .dir("/Users/dev/.clyde/projects/-Users-dev-cubby-sub")
        .file("/Users/dev/.clyde/projects/two/a.jsonl", "{\"cwd\":\"/Users/dev/gone\"}")
        .dir("/Users/dev/.clyde/todos")
        .dir("/Users/dev/Library/Caches/clyde-cli-nodejs/-Users-dev-cubby")
        .file(
            "/Users/dev/.codex/sessions/2024/rollout-2024-05-01T12.jsonl",
            "{\"cwd\":\"/Users/dev/cubby-wt\"}",
        )
        .file("/Users/dev/.codex/sessions/notes.jsonl", "{\"cwd\":\"/Users/dev/cubby\"}")
        .file("/Users/dev/.codex/archived_sessions/old.jsonl", "{\"cwd\":\"/Users/dev/cubby\"}")
        .file("/Users/dev/.codex/state.sqlite3", "");
    let env = env(&tree, Vec::new());
    let claims = agents::resolve(&project(), &env, &mut tree.disk());
    assert_eq!(
        shown(&claims),
        vec![
            row("/Users/dev/.clyde/projects/-Users-dev-cubby-sub", "encoded project path", "Clyde sessions"),
            row("/Users/dev/.clyde/projects/one", "Clyde session cwd", "Clyde sessions"),
            row(
                "/Users/dev/Library/Caches/clyde-cli-nodejs/-Users-dev-cubby",
                "Clyde CLI cache",
                "Clyde CLI cache",
            ),
            row(
                "/Users/dev/.codex/sessions/2024/rollout-2024-05-01T12.jsonl",
                "Codex session cwd",
                "Codex session 2024-05-01",
            ),
            row("/Users/dev/.codex/archived_sessions/old.jsonl", "Codex session cwd", "Codex session old"),
        ]
    );
    let mut disk = tree.disk();
    disk.stats.set(path("/Users/dev/cubby/apps"), Stat::Dir);
    let common = agents::baseline(&env, &mut disk);
    assert_eq!(
        shown(&common),
        vec![
            row("/Users/dev/.clyde/todos", "Clyde state", "Clyde todos"),
            row("/Users/dev/.codex/state.sqlite3", "Codex state", "state.sqlite3"),
            row(
                "/Users/dev/.clyde/projects/two",
                "session cwd no longer exists: /Users/dev/gone",
                "",
            ),
        ]
    );
}

#[test]
fn the_files_of_codex_are_come_to_in_the_order_of_the_listing() {
    let tree = Tree::new().file("/s/b/1", "").file("/s/b/c/2", "").file("/s/d", "").file("/s/a", "");
    let got = agents::walk_in_order(&mut tree.disk(), &path("/s"), 3);
    assert_eq!(got, vec![path("/s/a"), path("/s/b/1"), path("/s/b/c/2")]);
}

#[test]
fn editor_state_is_claimed_by_folder_or_by_name() {
    let storage = "/Users/dev/Library/Application Support/Cursor/User/workspaceStorage";
    let tree = Tree::new()
        .file(&format!("{storage}/1/workspace.json"), "{\"folder\":\"file:///Users/dev/cubby/web\"}")
        .file(&format!("{storage}/2/workspace.json"), "{\"folder\":\"file:///Users/dev/x\"}")
        .dir("/Users/dev/Library/Caches/JetBrains/IntelliJ2024/cubby.12ab");
    let claims = editors::resolve(&project(), &env(&tree, Vec::new()), &mut tree.disk());
    assert_eq!(
        shown(&claims),
        vec![
            row(&format!("{storage}/1"), "Cursor workspace.json", "Cursor workspace storage"),
            row(
                "/Users/dev/Library/Caches/JetBrains/IntelliJ2024/cubby.12ab",
                "JetBrains cache named after cubby",
                "cubby.12ab",
            ),
        ]
    );
}

fn listener(pid: u64, port: u64) -> Finding {
    let mut entries: Vec<(String, Doc)> = Vec::new();
    put_entry(&mut entries, "pid", number(pid));
    put_entry(&mut entries, "port", number(port));
    finding(FindingKind::PortListener, ScannerId::Ports, &format!("port {port}"), None, table_doc(entries))
}

#[test]
fn processes_in_the_project_are_told_once_with_their_ports() {
    let ports = vec![listener(7, 8080), listener(7, 3000), listener(9, 22)];
    let tree = Tree::new();
    let env = env(&tree, vec![(ScannerId::Ports, ports)]);
    let rows = procs::parse_lsof_pcn(
        "p7\ncnode\nn/Users/dev/cubby\nn/Users/dev/cubby/a\np9\ncsshd\nn/\np3\nczsh\nn/Users/dev/cubby-wt\n",
    );
    let (found, listening) = procs::processes_for(&project(), &rows, &env);
    let told: Vec<(u32, ProcKind)> = found.iter().map(|p| (p.pid, p.kind)).collect();
    assert_eq!(told, vec![(7, ProcKind::Server), (3, ProcKind::Shell)]);
    assert_eq!(listening, vec![3000, 8080]);
    assert!(procs::resolve(&project(), &env).is_empty());
}

#[test]
fn docker_objects_are_linked_by_the_compose_directory() {
    let container = |id: &str, dir: &str| {
        finding(
            FindingKind::DockerObject,
            ScannerId::Docker,
            id,
            None,
            meta(&[
                ("object", "container"),
                ("id", id),
                ("name", id),
                ("compose_working_dir", dir),
                ("compose_project", "cubby"),
            ]),
        )
    };
    let tree = Tree::new()
        .file("/Users/dev/cubby/compose.yml", "")
        .dir("/Users/dev/Library/Containers/com.docker.docker");
    let env = env(
        &tree,
        vec![(
            ScannerId::Docker,
            vec![container("c1", "/Users/dev/cubby"), container("c2", "/Users/dev/cubby-wt")],
        )],
    );
    let own = docker::resolve(&project(), &env, &mut tree.disk());
    let common = docker::baseline(&env, &mut tree.disk());
    assert_eq!(own.len(), 1);
    assert_eq!(own[0].label, "container c1");
    assert!(own[0].kind == EntryKind::Docker && own[0].virtual_bytes);
    assert_eq!(own[0].ecosystem, Some("docker"));
    assert_eq!(common.len(), 1);
    assert_eq!(common[0].label, "Docker Desktop VM disk (allocated)");
}

#[test]
fn go_python_brew_and_named_caches() {
    let tree = Tree::new()
        .file("/Users/dev/cubby/go.sum", "github.com/BurntSushi/toml v1.2.1 h1:x\n")
        .dir("/Users/dev/go/pkg/mod/github.com/!burnt!sushi/toml@v1.2.1")
        .dir("/Users/dev/Library/Caches/go-build")
        .dir("/Users/dev/Library/Caches/cubby")
        .file("/Users/dev/cubby/Brewfile", "brew \"ripgrep\"\n");
    let formula = finding(
        FindingKind::BrewFormula,
        ScannerId::Brew,
        "ripgrep",
        Some("/opt/homebrew/Cellar/ripgrep"),
        meta(&[("name", "ripgrep")]),
    );
    let env = env(&tree, vec![(ScannerId::Brew, vec![formula])]);
    let modules = go::resolve(&project(), &env, &mut tree.disk());
    assert_eq!(
        shown(&modules),
        vec![row(
            "/Users/dev/go/pkg/mod/github.com/!burnt!sushi/toml@v1.2.1",
            "go.sum",
            "github.com/BurntSushi/toml v1.2.1",
        )]
    );
    assert_eq!(go::baseline(&env, &mut tree.disk())[0].label, "go-build");
    let formulae = brew::resolve(&project(), &env, &mut tree.disk());
    assert_eq!(formulae[0].path, path("/opt/homebrew/Cellar/ripgrep"));
    let named = caches::resolve(&project(), &env, &mut tree.disk());
    assert!(named.iter().any(|c| c.path == path("/Users/dev/Library/Caches/cubby")));
    assert!(python::baseline(&env, &mut tree.disk()).is_empty());
}

#[test]
fn the_rules_lead_from_a_project_and_from_the_home_directory() {
    let tree = Tree::new()
        .file("/Users/dev/cubby/Cargo.lock", CARGO_LOCK)
        .file("/Users/dev/.cargo/registry/cache/index-1/serde-1.0.1.crate", "")
        .file("/Users/dev/.clyde/projects/one/a.jsonl", "{\"cwd\":\"/Users/dev/cubby/apps\"}")
        .dir("/Users/dev/.clyde/todos");
    let mut env = env(&tree, Vec::new());
    env.project_markers = vec!["Cargo.lock".to_string()];
    let mut disk = tree.disk();
    let index = discover(&env, &mut disk);
    assert_eq!(index.projects()[0].root, path(ROOT));
    let claims = all(&index.projects()[0], &env, &mut disk, &mut NpmMemo::new());
    assert!(claims
        .iter()
        .any(|c| c.path == path("/Users/dev/.cargo/registry/cache/index-1/serde-1.0.1.crate")));
    let common = all_baseline(&env, &index, &mut disk);
    let sessions = common.iter().find(|c| c.path == path("/Users/dev/.clyde/projects/one")).unwrap();
    assert_eq!(sessions.owner, ROOT);
    assert_eq!(sessions.label, "Clyde sessions");
    let state = common.iter().find(|c| c.path == path("/Users/dev/.clyde/todos")).unwrap();
    assert_eq!(state.label, "Clyde todos");
}

#[test]
fn an_axis_is_resolved_to_rows_and_findings() {
    let tree = Tree::new()
        .file("/Users/dev/cubby/Cargo.lock", CARGO_LOCK)
        .file("/Users/dev/cubby/src/main.rs", "");
    let mut env = env(&tree, Vec::new());
    env.project_markers = vec!["Cargo.lock".to_string()];
    let system = SystemFacts {
        groups: PathMap::new(),
        observed: Vec::new(),
        files: vec![OpenFile {
            pid: 5,
            command: "zsh".to_string(),
            fd: "cwd".to_string(),
            path: path("/Users/dev/cubby/src"),
        }],
    };
    let set = resolve_axis(Axis::Projects, &env, &mut tree.disk(), &system).unwrap();
    let missing = missing_deps(&APP_STORAGE_DEPS, &vec![ScannerId::Fs]);
    let set = of_scan(set, 4, missing);
    assert_eq!(set.gen, 4);
    assert_eq!(set.missing_deps.len(), APP_STORAGE_DEPS.len() - 1);
    assert_eq!(set.footprints.len(), 1);
    assert_eq!(set.footprints[0].exclusive, 8192);
    assert_eq!(set.footprints[0].processes[0].kind, ProcKind::Shell);
    let row = footprint_finding(Axis::Projects, &set.footprints[0]);
    assert_eq!(row.kind, FindingKind::Project);
    assert_eq!(row.size_bytes, Some(8192));
    assert_eq!(row.title, "cubby");
    let buckets = bucket_findings(&set);
    let titles: Vec<&str> = buckets.iter().map(|f| f.title.as_str()).collect();
    assert_eq!(titles, vec!["Baseline", "Unattributed", "Coverage"]);
}

#[test]
fn names_from_manifests_are_listed_once() {
    let tree = Tree::new()
        .file("/Users/dev/cubby/package.json", "{\"name\": \"cubby\", \"workspaces\": [\"apps/*\"]}")
        .file("/Users/dev/cubby/apps/api/package.json", "{\"name\": \"cubby-api\"}")
        .file("/Users/dev/cubby/core/Cargo.toml", "[package]\nname = \"cubby-api\"\n[[bin]]\nname = \"tool\"\n")
        .file("/Users/dev/cubby/Package.swift", "let package = Package(\n  name: \"Cubby\"\n)");
    let mut p = project();
    collect(&mut p, &env(&tree, Vec::new()), &mut tree.disk());
    assert_eq!(p.names, vec!["cubby", "cubby-api", "tool", "Cubby"]);
    assert_eq!(p.bundle_ids, vec!["com.example.cubby"]);
}

#[test]
fn a_version_of_npms_index_starts_at_the_last_hyphen_before_a_digit() {
    let line = "abc {\"key\":\"make-fetch-happen:request-cache:https://registry.npmjs.org/foo/-/foo-1.0.0-beta.1.tgz\",\"integrity\":\"sha512-aGk=\"}";
    let tree = Tree::new().file("/Users/dev/.npm/_cacache/index-v5/aa/bb/cc", line);
    let got = scan_npm_index(&path(HOME), &mut tree.disk());
    assert_eq!(got.len(), 1);
    assert_eq!(got[0].name, "foo");
    assert_eq!(got[0].version, "1.0.0-beta.1");
    assert_eq!(got[0].integrity, "sha512-aGk=");
}

#[test]
fn a_container_of_a_compose_project_is_linked() {
    let container = |pairs: &[(&str, &str)]| {
        finding(FindingKind::DockerObject, ScannerId::Docker, "c", None, meta(pairs))
    };
    let tree = Tree::new();
    let linked = container(&[("object", "container"), ("id", "c1"), ("compose_project", "web")]);
    let loose = container(&[("object", "container"), ("id", "c2")]);
    let env = env(&tree, vec![(ScannerId::Docker, vec![linked, loose])]);
    let claims = docker_unlinked(&env);
    assert_eq!(claims.len(), 1);
    assert!(claims[0].path.text().ends_with("/c2"));
}

#[test]
fn an_answer_is_whole_once_nothing_is_wanted() {
    let tree = Tree::new()
        .file("/Users/dev/cubby/Cargo.lock", CARGO_LOCK)
        .file("/Users/dev/.cargo/registry/cache/index-1/serde-1.0.1.crate", "");
    let mut env = env(&tree, Vec::new());
    env.project_markers = vec!["Cargo.lock".to_string()];
    let known = tree.disk();
    let mut disk = Disk::new();
    let mut rounds = 0;
    let index = loop {
        disk.wanted.clear();
        let index = discover(&env, &mut disk);
        if disk.wanted.is_empty() {
            break index;
        }
        rounds += 1;
        for want in std::mem::take(&mut disk.wanted) {
            match want {
                Want::Stat(p) => {
                    let stat = known.stats.get(&p).copied().unwrap_or(Stat::Absent);
                    disk.stats.set(p, stat);
                }
                Want::List(p) => {
                    let entries = known.listings.get(&p).and_then(|l| l.as_ref()).map(|l| {
                        l.iter().map(|e| Listed { name: e.name.clone(), kind: e.kind }).collect()
                    });
                    disk.listings.set(p, entries);
                }
                Want::Head(p, _) => {
                    let text = known.texts.get(&p).cloned().flatten();
                    disk.set_head(p, text);
                }
                Want::Text(p) => {
                    let text = known.texts.get(&p).cloned().flatten();
                    disk.texts.set(p, text);
                }
                Want::Bytes(p) => disk.blobs.set(p, None),
                Want::Link(p) => disk.links.set(p, None),
                Want::Size(p) => disk.sizes.set(p, None),
            }
        }
    };
    assert!(rounds > 0);
    assert_eq!(index.projects().len(), discover(&env, &mut tree.disk()).projects().len());
    assert_eq!(index.projects()[0].root, path(ROOT));
}

#[test]
fn what_is_known_is_not_asked_again() {
    let tree = Tree::new().file("/Users/dev/cubby/Cargo.lock", CARGO_LOCK);
    let env = env(&tree, Vec::new());
    let mut disk = tree.disk();
    all(&project(), &env, &mut disk, &mut NpmMemo::new());
    assert!(!disk.wanted.is_empty());
    for want in &disk.wanted {
        assert!(match want {
            Want::Stat(p) => disk.stats.get(p).is_none(),
            Want::List(p) => disk.listings.get(p).is_none(),
            Want::Head(p, _) => disk.heads.get(p).is_none(),
            Want::Text(p) => disk.texts.get(p).is_none(),
            Want::Bytes(p) => disk.blobs.get(p).is_none(),
            Want::Link(p) => disk.links.get(p).is_none(),
            Want::Size(p) => disk.sizes.get(p).is_none(),
        });
    }
}

#[test]
fn an_index_of_npm_that_was_read_before_counts() {
    let entry = |integrity: &str| NpmEntry {
        name: "foo".to_string(),
        version: "1.0.0".to_string(),
        integrity: integrity.to_string(),
    };
    let line = "abc {\"key\":\"x/foo-1.0.0.tgz\",\"integrity\":\"sha512-aGk=\"}";
    let tree = Tree::new().file("/Users/dev/.npm/_cacache/index-v5/aa/bb/cc", line);
    let mut env = env(&tree, Vec::new());
    let key = Key { name: "foo".to_string(), version: "1.0.0".to_string(), extra: None };
    let blobs = |env: &ResolveEnv| {
        npm_cacache(&key, env, &mut tree.disk(), &mut NpmMemo::new())
    };
    assert_eq!(blobs(&env), npm_blob(&path(HOME), Some("sha512-aGk=".to_string())));
    assert_eq!(blobs(&env).len(), 1);
    env.npm_index = Some(vec![entry("sha512-aGlo")]);
    assert_eq!(blobs(&env), npm_blob(&path(HOME), Some("sha512-aGlo".to_string())));
    assert_ne!(blobs(&env), npm_blob(&path(HOME), Some("sha512-aGk=".to_string())));
    env.npm_index = Some(Vec::new());
    assert!(blobs(&env).is_empty());
}

#[test]
fn redirected_target_directories_are_artifacts() {
    let tree = Tree::new().file(
        "/Users/dev/cubby/.cargo/config.toml",
        "[build]\ntarget-dir = \"/Volumes/fast/target\"\n",
    );
    let claims = joined_artifacts(&project(), &env(&tree, Vec::new()), &mut tree.disk());
    let target = claims.iter().find(|c| c.path == path("/Volumes/fast/target")).unwrap();
    assert_eq!(target.evidence, "target-dir in .cargo/config.toml");
    assert_eq!(target.kind, EntryKind::Artifacts);
}
