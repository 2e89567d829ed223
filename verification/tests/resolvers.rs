use std::collections::HashSet;

use macaudit::attribution::model::{AgentNames, EntryKind, ProcKind, ResolveEnv};
use macaudit::attribution::projects::resolvers::apply::eval_match;
use macaudit::attribution::projects::resolvers::caches::{bundle_id_targets, candidate_project_names, matches_any_name};
use macaudit::attribution::projects::resolvers::derive::{
    device_dir_ancestor, format_runtime_identifier, jetbrains_name_matches,
};
use macaudit::attribution::projects::resolvers::editors::{jetbrains_name_match, parse_workspace_json_folder};
use macaudit::attribution::projects::resolvers::joins::{artifacts, classify, is_compose_file_name};
use macaudit::attribution::projects::resolvers::links::{extract_one, matches_bundle_id};
use macaudit::attribution::projects::resolvers::parsers::{
    brewfile, brewfile_directive, escape_module_path, go_sum, package_resolved,
    swiftpm_repo_basename, BrewEntryKind, Key, ResolvedPin,
};
use macaudit::attribution::projects::resolvers::procs::{parse_lsof_pcn, ProcRow};
use macaudit::attribution::projects::resolvers::rules::{
    lookup_rows, reverse_rows, Extract, Select, NONE,
};
use macaudit::attribution::projects::resolvers::templates::{expand_brace, glob_expand, glob_match, substitute};
use macaudit::attribution::projects::resolvers::xcode::derived_data_display_name;
use macaudit::attribution::projects::{under_project, Project, ProjectIndex};
use macaudit::disk::{Disk, Listed, NodeKind, Stat};
use macaudit::fspath::FilePath;

fn path(text: &str) -> FilePath {
    FilePath::from_text(text)
}

const AGENT: AgentNames = AgentNames {
    cli_cache_id: "clyde-cli-cache",
    sessions_id: "clyde-sessions",
    title: "Clyde",
    home_dir: ".clyde",
    sessions_root: "~/.clyde/projects",
    state_pattern: "~/.clyde/*",
    session_evidence: "Clyde session cwd",
    sessions_label: "Clyde sessions",
    cli_cache_label: "Clyde CLI cache",
    state_evidence: "Clyde state",
    cli_cache: "clyde-cli-nodejs",
    tool_owner: "tool:clyde",
    tool_reason: "the cache dir name doesn't match the tool name",
};

fn project() -> Project {
    Project {
        root: path("/Users/dev/cubby"),
        name: "cubby".into(),
        worktrees: Vec::new(),
        names: Vec::new(),
        bundle_ids: Vec::new(),
        is_git: true,
    }
}

fn project_with_names(names: &[&str]) -> Project {
    let mut p = project();
    p.names = names.iter().map(|n| n.to_string()).collect();
    p
}

#[test]
fn brew_parses_brew_and_cask_directives_and_ignores_others() {
    let text = "tap \"homebrew/cask\"\nbrew \"ripgrep\"\ncask 'visual-studio-code'\nmas \"Xcode\", id: 497799835\n";
    let entries: Vec<(bool, String)> = brewfile(text)
        .into_iter()
        .map(|(kind, name)| (matches!(kind, BrewEntryKind::Formula), name))
        .collect();
    assert_eq!(
        entries,
        vec![
            (true, "ripgrep".to_string()),
            (false, "visual-studio-code".to_string()),
        ]
    );
}

#[test]
fn brew_does_not_confuse_brewfoo_with_brew() {
    assert!(brewfile_directive("brewfoo \"x\"", "brew").is_none());
}

#[test]
fn derive_jetbrains_name_match_checks_the_prefix_before_the_hash() {
    assert!(jetbrains_name_matches("cubby.a1b2c3d4", "cubby"));
    assert!(jetbrains_name_matches("cubby-a1b2c3d4", "cubby"));
    assert!(!jetbrains_name_matches("other.a1b2c3d4", "cubby"));
}

#[test]
fn derive_formats_a_simruntime_identifier() {
    assert_eq!(
        format_runtime_identifier("com.apple.CoreSimulator.SimRuntime.iOS-17-0"),
        "iOS 17.0"
    );
    assert_eq!(format_runtime_identifier("weird"), "weird");
}

#[test]
fn device_dir_ancestor_finds_the_devices_udid_component() {
    let p = &path("/Users/x/Library/Developer/CoreSimulator/Devices/ABCD/data/Containers/Bundle/Application/EFGH");
    assert_eq!(
        device_dir_ancestor(p),
        Some(path(
            "/Users/x/Library/Developer/CoreSimulator/Devices/ABCD"
        ))
    );
}

#[test]
fn docker_compose_file_name_matches_bare_and_docker_prefixed_forms() {
    assert!(is_compose_file_name("compose.yml"));
    assert!(is_compose_file_name("compose.yaml"));
    assert!(is_compose_file_name("docker-compose.yml"));
    assert!(is_compose_file_name("docker-compose.prod.yaml"));
    assert!(is_compose_file_name("DOCKER-COMPOSE.YML"));
    assert!(!is_compose_file_name("compose.prod.yaml"));
    assert!(!is_compose_file_name("recompose.yml"));
    assert!(!is_compose_file_name("compose.txt"));
}

#[test]
fn parses_the_single_root_folder_form() {
    let text = r#"{"folder":"file:///Users/dev/cubby"}"#;
    assert_eq!(
        parse_workspace_json_folder(text),
        Some(path("/Users/dev/cubby"))
    );
}

#[test]
fn parses_the_multi_root_workspace_form() {
    let text = r#"{"workspace":"file:///Users/dev/cubby/cubby.code-workspace"}"#;
    assert_eq!(
        parse_workspace_json_folder(text),
        Some(path("/Users/dev/cubby/cubby.code-workspace"))
    );
}

#[test]
fn neither_field_present_is_none() {
    assert_eq!(parse_workspace_json_folder(r#"{"other":1}"#), None);
    assert_eq!(parse_workspace_json_folder("not json"), None);
}

#[test]
fn editors_jetbrains_name_match_checks_the_prefix_before_the_hash() {
    let names = vec!["cubby".to_string()];
    assert_eq!(
        jetbrains_name_match("cubby.a1b2c3d4", &names),
        Some("cubby".to_string())
    );
    assert_eq!(
        jetbrains_name_match("cubby-a1b2c3d4", &names),
        Some("cubby".to_string())
    );
    assert_eq!(jetbrains_name_match("other.a1b2c3d4", &names), None);
}

#[test]
fn candidate_names_skips_short_and_generic_names() {
    let project = project_with_names(&["cubby", "api", "ui", "src"]);
    assert_eq!(candidate_project_names(&project), vec!["cubby".to_string()]);
}

#[test]
fn candidate_names_adds_dash_underscore_variants() {
    let project = project_with_names(&["recipe-bridge"]);
    let names = candidate_project_names(&project);
    assert!(names.contains(&"recipe-bridge".to_string()));
    assert!(names.contains(&"recipe_bridge".to_string()));
}

#[test]
fn matches_any_name_is_case_insensitive() {
    let candidates = vec!["cubby".to_string()];
    assert_eq!(matches_any_name("Cubby", &candidates), Some("cubby"));
    assert_eq!(matches_any_name("other", &candidates), None);
}

#[test]
fn bundle_id_targets_covers_every_known_location() {
    let targets = bundle_id_targets("com.example.app");
    assert_eq!(targets.len(), 6);
    assert!(targets
        .iter()
        .any(|(p, _)| p == "Library/Containers/com.example.app"));
    assert!(targets
        .iter()
        .any(|(p, _)| p == "Library/Preferences/com.example.app.plist"));
}

#[test]
fn matches_bundle_id_accepts_an_exact_match_and_an_extension() {
    let ids = vec!["com.example.app".to_string()];
    assert!(matches_bundle_id(&ids, "com.example.app"));
    assert!(matches_bundle_id(&ids, "com.example.app.widget"));
    assert!(!matches_bundle_id(&ids, "com.example.other"));
    assert!(!matches_bundle_id(&ids, "com.example.appfoo"));
}

#[test]
fn simulator_formats_a_simruntime_identifier() {
    assert_eq!(
        format_runtime_identifier("com.apple.CoreSimulator.SimRuntime.iOS-17-0"),
        "iOS 17.0"
    );
    assert_eq!(format_runtime_identifier("weird"), "weird");
}

#[test]
fn swiftpm_parses_v2_pins() {
    let text = r#"{
            "version": 2,
            "pins": [
                { "identity": "swift-algorithms", "kind": "remoteSourceControl",
                  "location": "https://github.com/apple/swift-algorithms.git",
                  "state": { "revision": "abc", "version": "1.2.0" } }
            ]
        }"#;
    let pins = package_resolved(text);
    assert_eq!(
        pins,
        vec![ResolvedPin {
            identity: "swift-algorithms".to_string(),
            location: "https://github.com/apple/swift-algorithms.git".to_string(),
        }]
    );
}

#[test]
fn swiftpm_parses_v1_pins() {
    let text = r#"{
            "object": {
                "pins": [
                    { "package": "swift-algorithms",
                      "repositoryURL": "https://github.com/apple/swift-algorithms.git",
                      "state": { "branch": null, "revision": "abc", "version": "1.2.0" } }
                ]
            },
            "version": 1
        }"#;
    let pins = package_resolved(text);
    assert_eq!(
        pins,
        vec![ResolvedPin {
            identity: "swift-algorithms".to_string(),
            location: "https://github.com/apple/swift-algorithms.git".to_string(),
        }]
    );
}

#[test]
fn repo_basename_strips_dot_git_and_trailing_slash() {
    assert_eq!(
        swiftpm_repo_basename("https://github.com/apple/swift-algorithms.git"),
        Some("swift-algorithms".to_string())
    );
    assert_eq!(
        swiftpm_repo_basename("https://github.com/apple/swift-algorithms/"),
        Some("swift-algorithms".to_string())
    );
}

#[test]
fn repo_basename_handles_scp_style_urls() {
    assert_eq!(
        swiftpm_repo_basename("git@github.com:apple/swift-algorithms.git"),
        Some("swift-algorithms".to_string())
    );
}

#[test]
fn malformed_json_yields_no_pins() {
    assert_eq!(package_resolved("not json"), Vec::new());
    assert_eq!(package_resolved("{}"), Vec::new());
}

#[test]
fn derived_data_display_name_strips_the_trailing_hash() {
    assert_eq!(derived_data_display_name("Cubby-abcdefghijklmnop"), "Cubby");
    assert_eq!(derived_data_display_name("Cubby"), "Cubby");
}

#[test]
fn xcode_under_project_matches_root_and_worktrees() {
    let project = Project {
        root: path("/Users/dev/cubby"),
        name: "cubby".into(),
        worktrees: vec![path("/Users/dev/cubby-worktrees/feature")],
        names: Vec::new(),
        bundle_ids: Vec::new(),
        is_git: true,
    };
    assert!(under_project(
        &path("/Users/dev/cubby/apps/api"),
        &project
    ));
    assert!(under_project(
        &path("/Users/dev/cubby-worktrees/feature/apps/api"),
        &project
    ));
    assert!(!under_project(&path("/Users/dev/other"), &project));
}

#[test]
fn parses_one_process_one_cwd() {
    let output = "p1234\ncnode\nn/Users/dev/cubby\n";
    assert_eq!(
        parse_lsof_pcn(output),
        vec![ProcRow {
            pid: 1234,
            command: "node".to_string(),
            cwd: path("/Users/dev/cubby"),
        }]
    );
}

#[test]
fn parses_multiple_processes() {
    let output = "p1\nczsh\nn/Users/dev/cubby\np2\ncnode\nn/Users/dev/other\n";
    assert_eq!(
        parse_lsof_pcn(output),
        vec![
            ProcRow {
                pid: 1,
                command: "zsh".to_string(),
                cwd: path("/Users/dev/cubby"),
            },
            ProcRow {
                pid: 2,
                command: "node".to_string(),
                cwd: path("/Users/dev/other"),
            },
        ]
    );
}

#[test]
fn ignores_an_n_line_with_no_preceding_pid_or_command() {
    assert_eq!(parse_lsof_pcn("n/Users/dev/cubby\n"), Vec::new());
}

#[test]
fn empty_output_yields_no_rows() {
    assert_eq!(parse_lsof_pcn(""), Vec::new());
}

#[test]
fn procs_classify_recognises_known_shells() {
    let listening = Vec::new();
    assert_eq!(classify("zsh", 1, &listening), ProcKind::Shell);
    assert_eq!(classify("bash", 1, &listening), ProcKind::Shell);
}

#[test]
fn procs_classify_flags_a_port_owning_pid_as_server() {
    let mut listening = Vec::new();
    listening.push((42, 3000));
    assert_eq!(classify("node", 42, &listening), ProcKind::Server);
    assert_eq!(classify("node", 43, &listening), ProcKind::Other);
}

#[test]
fn joins_compose_file_name_matches_bare_and_docker_prefixed_forms() {
    assert!(is_compose_file_name("compose.yml"));
    assert!(is_compose_file_name("compose.yaml"));
    assert!(is_compose_file_name("docker-compose.yml"));
    assert!(is_compose_file_name("docker-compose.prod.yaml"));
    assert!(is_compose_file_name("DOCKER-COMPOSE.YML"));
    assert!(!is_compose_file_name("compose.prod.yaml"));
    assert!(!is_compose_file_name("recompose.yml"));
    assert!(!is_compose_file_name("compose.txt"));
}

#[test]
fn joins_classify_recognises_known_shells() {
    let listening = Vec::new();
    assert_eq!(classify("zsh", 1, &listening), ProcKind::Shell);
    assert_eq!(classify("bash", 1, &listening), ProcKind::Shell);
}

#[test]
fn joins_classify_flags_a_port_owning_pid_as_server() {
    let mut listening = Vec::new();
    listening.push((42, 3000));
    assert_eq!(classify("node", 42, &listening), ProcKind::Server);
    assert_eq!(classify("node", 43, &listening), ProcKind::Other);
}

#[test]
fn artifacts_claims_the_working_tree_and_worktrees() {
    let env = ResolveEnv::new(
        path("/tmp/macaudit-attribution-test-home"),
        Vec::new(),
        Vec::new(),
        AGENT,
    );
    let claims = artifacts(&project(), &env, &mut Disk::new());
    assert_eq!(claims.len(), 1);
    assert_eq!(claims[0].kind, EntryKind::WorkingTree);
}

#[test]
fn go_module_path_escaping_matches_gos_own_scheme() {
    assert_eq!(
        escape_module_path("github.com/BurntSushi/toml"),
        "github.com/!burnt!sushi/toml"
    );
    assert_eq!(escape_module_path("golang.org/x/text"), "golang.org/x/text");
}

#[test]
fn parse_go_sum_dedupes_the_go_mod_suffixed_line() {
    let text = "\
github.com/BurntSushi/toml v1.2.1 h1:9F2/+DoOYIOksmaJ4dTKZ+g0k
github.com/BurntSushi/toml v1.2.1/go.mod h1:CxXYINrC8qIiEnFrOxCa9jNhW0nEDGGC
golang.org/x/text v0.14.0 h1:ScX5w1eTa3QqT8oi6+ziP7dTV1S2+ARsyilvQ
";
    let modules = go_sum(text);
    assert_eq!(
        modules,
        vec![
            Key {
                name: "github.com/BurntSushi/toml".to_string(),
                version: "v1.2.1".to_string(),
                extra: None,
            },
            Key {
                name: "golang.org/x/text".to_string(),
                version: "v0.14.0".to_string(),
                extra: None,
            },
        ]
    );
}

#[test]
fn lookup_row_ids_are_unique_and_nonempty() {
    let mut seen = HashSet::new();
    for row in lookup_rows(AGENT) {
        assert!(!row.id.is_empty(), "row has an empty id");
        assert!(seen.insert(row.id), "duplicate LOOKUP row id: {}", row.id);
    }
}

#[test]
fn reverse_link_row_ids_are_unique_and_nonempty() {
    let mut seen = HashSet::new();
    for row in reverse_rows(AGENT) {
        assert!(!row.id.is_empty(), "row has an empty id");
        assert!(seen.insert(row.id), "duplicate REVERSE row id: {}", row.id);
    }
}

#[test]
fn glob_match_handles_stars_anywhere() {
    assert!(glob_match(
        "rollout-*.jsonl",
        "rollout-2026-09-24T08-28.jsonl"
    ));
    assert!(!glob_match("rollout-*.jsonl", "rollout-2026.json"));
    assert!(glob_match("*DeviceSupport", "iOS DeviceSupport"));
    assert!(glob_match("metadata*", "metadata-v1.3"));
    assert!(glob_match("*.sqlite*", "logs_2.sqlite-wal"));
    assert!(glob_match("a*b*c", "a-b-c"));
    assert!(!glob_match("ab*ba", "aba"));
    assert!(glob_match("exact", "exact") && !glob_match("exact", "exactly"));
}

#[test]
fn glob_match_supports_prefix_suffix_mid_and_exact() {
    assert!(glob_match("*", "anything"));
    assert!(glob_match("cpython-*", "cpython-3.12.1"));
    assert!(!glob_match("cpython-*", "pyenv-3.12.1"));
    assert!(glob_match("*DeviceSupport", "17.0 DeviceSupport"));
    assert!(glob_match("*.sqlite*", "state.sqlite3"));
    assert!(glob_match("exact", "exact"));
    assert!(!glob_match("exact", "exactly"));
}

#[test]
fn expand_brace_expands_one_alternation_group() {
    assert_eq!(
        expand_brace("{Code,Cursor}"),
        Some(vec!["Code".to_string(), "Cursor".to_string()])
    );
    assert_eq!(expand_brace("plain"), None);
}

#[test]
fn apply_under_project_matches_root_and_worktrees() {
    let project = Project {
        root: path("/Users/dev/cubby"),
        name: "cubby".into(),
        worktrees: vec![path("/Users/dev/cubby-worktrees/feature")],
        names: Vec::new(),
        bundle_ids: Vec::new(),
        is_git: true,
    };
    assert!(under_project(
        &path("/Users/dev/cubby/apps/api"),
        &project
    ));
    assert!(under_project(
        &path("/Users/dev/cubby-worktrees/feature/apps/api"),
        &project
    ));
    assert!(!under_project(&path("/Users/dev/other"), &project));
}

#[test]
fn reverse_link_matched_vs_stale() {
    let index = ProjectIndex::new(vec![Project {
        root: path("/Users/dev/cubby"),
        name: "cubby".into(),
        worktrees: Vec::new(),
        names: Vec::new(),
        bundle_ids: Vec::new(),
        is_git: true,
    }]);
    assert!(index.owner_of(&path("/Users/dev/cubby/src")).is_some());
    assert!(index.owner_of(&path("/Users/dev/gone")).is_none());
}

fn listed(disk: &mut Disk, dir: &str, entries: &[(&str, NodeKind)]) {
    let list = entries
        .iter()
        .map(|(n, k)| Listed { name: n.to_string(), kind: *k })
        .collect();
    disk.stats.set(path(dir), Stat::Dir);
    disk.listings.set(path(dir), Some(list));
    for (n, k) in entries {
        let stat = if *k == NodeKind::Dir { Stat::Dir } else { Stat::File };
        disk.stats.set(path(dir).child(n), stat);
    }
}

fn env() -> ResolveEnv {
    ResolveEnv::new(path("/tmp/macaudit-attribution-test-home"), Vec::new(), Vec::new(), AGENT)
}

#[test]
fn substitute_replaces_known_tokens_and_leaves_unknown_ones() {
    let tokens = vec![("name", "cubby".to_string()), ("version", "1.2.3".to_string())];
    assert_eq!(
        substitute("{name} {version} {nope}", &tokens),
        "cubby 1.2.3 {nope}"
    );
}

#[test]
fn glob_expand_handles_tilde_and_literal_components() {
    let home = path("/Users/nicky");
    let mut disk = Disk::new();
    assert_eq!(
        glob_expand("~/Library/Caches", &home, &mut disk),
        vec![path("/Users/nicky/Library/Caches")]
    );
    assert_eq!(
        glob_expand("/Library/Developer/CoreSimulator/Volumes", &home, &mut disk),
        vec![path("/Library/Developer/CoreSimulator/Volumes")]
    );
}

#[test]
fn glob_expand_expands_brace_alternation_without_touching_disk() {
    let home = path("/Users/nicky");
    let mut disk = Disk::new();
    let got = glob_expand("~/Library/Application Support/{Code,Cursor}/User", &home, &mut disk);
    assert_eq!(
        got,
        vec![
            path("/Users/nicky/Library/Application Support/Code/User"),
            path("/Users/nicky/Library/Application Support/Cursor/User"),
        ]
    );
    assert!(disk.wanted.is_empty());
}

#[test]
fn glob_expand_lists_a_real_directory_for_a_star_component() {
    let mut disk = Disk::new();
    listed(
        &mut disk,
        "/tmp/dir",
        &[("v1", NodeKind::Dir), ("v2", NodeKind::Dir), ("not-a-dir", NodeKind::File)],
    );
    let got = glob_expand("/tmp/dir/*", &path("/unused"), &mut disk);
    assert_eq!(got.len(), 3);
    assert!(got.contains(&path("/tmp/dir/v1")));
}

#[test]
fn eval_match_max_semver_picks_the_newest_within_the_pin() {
    let mut disk = Disk::new();
    listed(
        &mut disk,
        "/tmp/dir",
        &[
            ("v24.2.0", NodeKind::Dir),
            ("v24.15.0", NodeKind::Dir),
            ("v20.1.0", NodeKind::Dir),
        ],
    );
    let tokens = vec![("key", "v24".to_string())];
    let got = eval_match(
        &vec!["/tmp/dir"],
        "",
        Select::MaxSemver,
        &tokens,
        &path("/unused"),
        NONE,
        "v24",
        &mut disk,
    );
    assert_eq!(got, vec![path("/tmp/dir/v24.15.0")]);
}

#[test]
fn eval_match_all_returns_every_prefix_match() {
    let mut disk = Disk::new();
    listed(
        &mut disk,
        "/tmp/dir",
        &[
            ("lodash-npm-4.17.21-abc.zip", NodeKind::File),
            ("lodash-npm-4.17.20-def.zip", NodeKind::File),
            ("other-file", NodeKind::File),
        ],
    );
    let got = eval_match(
        &vec!["/tmp/dir"],
        "lodash-npm-",
        Select::All,
        &Vec::new(),
        &path("/unused"),
        NONE,
        "",
        &mut disk,
    );
    assert_eq!(got.len(), 2);
}

#[test]
fn extract_json_uri_reads_the_first_present_key() {
    let mut disk = Disk::new();
    disk.set_head(
        path("/tmp/dir/workspace.json"),
        Some(r#"{"folder":"file:///Users/dev/cubby"}"#.to_string()),
    );
    let extracted = extract_one(
        &Extract::JsonUri { file: "workspace.json", keys: vec!["folder", "workspace"] },
        &path("/tmp/dir"),
        &env(),
        &mut disk,
    )
    .expect("workspace.json parses");
    assert_eq!(extracted.path, path("/Users/dev/cubby"));
}

#[test]
fn extract_json_uri_passes_over_no_key_that_is_present() {
    let mut disk = Disk::new();
    disk.set_head(
        path("/tmp/dir/workspace.json"),
        Some(r#"{"folder":"vscode-remote://x","workspace":"file:///Users/dev/cubby"}"#.to_string()),
    );
    let how = Extract::JsonUri { file: "workspace.json", keys: vec!["folder", "workspace"] };
    assert!(extract_one(&how, &path("/tmp/dir"), &env(), &mut disk).is_none());
}
