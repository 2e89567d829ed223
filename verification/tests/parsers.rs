use macaudit::attribution::projects::resolvers::parsers::{
    brewfile, brewfile_directive, cargo_lock_git, cargo_lock_registry,
    cargo_target_dirs_in_package_json_scripts, decode_base64, default_toolchain,
    encode_claude_project_dir, escape_module_path, expand_target_dir, extract_cargo_target_dir,
    extract_cwd, first_bare_line, go_sum, hex_encode, key_value_field, normalise_node_pin,
    npm_integrity_to_shard, package_lock, package_resolved, swiftpm_repo_basename, yarn_berry,
    BrewEntryKind,
};
use macaudit::attribution::projects::resolvers::versions::newest_matching_version;
use macaudit::fspath::FilePath;

fn path(text: &str) -> FilePath {
    FilePath::from_text(text)
}

#[test]
fn key_value_field_handles_quoted_and_bare_forms() {
    assert_eq!(
        key_value_field(r#"name = "serde""#, "name"),
        Some("serde".to_string())
    );
    assert_eq!(
        key_value_field("nodejs 20.11.1", "nodejs"),
        Some("20.11.1".to_string())
    );
    assert_eq!(key_value_field("nodefoo 1", "node"), None);
}

#[test]
fn newest_matching_version_picks_the_newest_within_the_pin() {
    let candidates = vec![
        "v24.2.0".to_string(),
        "v24.15.0".to_string(),
        "v20.1.0".to_string(),
        "v240.1.0".to_string(),
    ];
    assert_eq!(
        newest_matching_version("v24", &candidates),
        Some("v24.15.0".to_string())
    );
}

#[test]
fn newest_matching_version_prefers_an_exact_match() {
    let candidates = vec![
        "stable-aarch64-apple-darwin".to_string(),
        "stable".to_string(),
    ];
    assert_eq!(
        newest_matching_version("stable", &candidates),
        Some("stable".to_string())
    );
}

#[test]
fn newest_matching_version_falls_back_to_the_only_host_triple_match() {
    let candidates = vec!["stable-aarch64-apple-darwin".to_string()];
    assert_eq!(
        newest_matching_version("stable", &candidates),
        Some("stable-aarch64-apple-darwin".to_string())
    );
}

#[test]
fn parsers_parses_package_lock_v3_packages_entries() {
    let text = r#"{
            "lockfileVersion": 3,
            "packages": {
                "": { "name": "root", "version": "1.0.0" },
                "node_modules/lodash": { "version": "4.17.21" },
                "node_modules/@scope/thing": { "version": "2.0.0" },
                "node_modules/foo/node_modules/lodash": { "version": "4.17.20" }
            }
        }"#;
    let mut got: Vec<(String, String)> = package_lock(text)
        .into_iter()
        .map(|p| (p.name, p.version))
        .collect();
    got.sort();
    assert_eq!(
        got,
        vec![
            ("@scope/thing".to_string(), "2.0.0".to_string()),
            ("lodash".to_string(), "4.17.20".to_string()),
            ("lodash".to_string(), "4.17.21".to_string()),
        ]
    );
}

#[test]
fn parsers_parses_yarn_berry_resolution_lines() {
    let text = r#"
"lodash@npm:^4.17.21, lodash@npm:^4.17.4":
  version: 4.17.21
  resolution: "lodash@npm:4.17.21"
  checksum: 10c0/abcd
  languageName: node
  linkType: hard

"@babel/core@npm:^7.20.0":
  version: 7.20.0
  resolution: "@babel/core@npm:7.20.0"
  languageName: node
  linkType: hard

"local-pkg@workspace:packages/local-pkg":
  version: 0.0.0-use.local
  resolution: "local-pkg@workspace:packages/local-pkg"
  languageName: unknown
  linkType: soft
"#;
    let mut got = yarn_berry(text);
    got.sort();
    assert_eq!(
        got,
        vec![
            ("@babel/core".to_string(), "7.20.0".to_string()),
            ("lodash".to_string(), "4.17.21".to_string()),
        ]
    );
}

#[test]
fn parsers_normalise_node_pin_handles_major_only_and_dotted_forms() {
    assert_eq!(normalise_node_pin("v24"), Some("v24".to_string()));
    assert_eq!(normalise_node_pin("24.1"), Some("v24.1".to_string()));
    assert_eq!(normalise_node_pin("20.11.1"), Some("v20.11.1".to_string()));
}

#[test]
fn parsers_normalise_node_pin_rejects_non_numeric_refs() {
    assert_eq!(normalise_node_pin("lts/*"), None);
    assert_eq!(normalise_node_pin("lts/iron"), None);
    assert_eq!(normalise_node_pin("system"), None);
    assert_eq!(normalise_node_pin(""), None);
}

#[test]
fn parsers_base64_round_trips_a_known_npm_integrity_value() {
    assert_eq!(decode_base64("aGk="), Some(vec![0x68, 0x69]));
    assert_eq!(hex_encode(&[0x68, 0x69]), "6869");
}

#[test]
fn npm_integrity_to_shard_splits_the_hex_digest() {
    let (a, b, rest) = npm_integrity_to_shard("sha512-aGk=").unwrap();
    assert_eq!(format!("{a}{b}{rest}"), "6869");
}

#[test]
fn parsers_parses_a_lockfile_with_a_registry_and_a_git_source() {
    let text = r#"
# This file is automatically @generated by Cargo.
version = 3

[[package]]
name = "serde"
version = "1.0.210"
source = "registry+https://github.com/rust-lang/crates.io-index"
checksum = "abc123"

[[package]]
name = "cubby-core"
version = "0.1.0"
source = "git+https://github.com/nickysemenza/cubby-core.git?branch=main#deadbeef"

[[package]]
name = "cubby-ffi"
version = "0.1.0"
"#;
    let registry = cargo_lock_registry(text);
    assert_eq!(registry.len(), 1);
    assert_eq!(registry[0].name, "serde");
    assert_eq!(registry[0].version, "1.0.210");

    let git = cargo_lock_git(text);
    assert_eq!(git.len(), 1);
    assert_eq!(git[0].name, "cubby-core");
    assert_eq!(git[0].extra.as_deref(), Some("cubby-core"));
}

#[test]
fn channel_toml_form_is_a_key_value_field() {
    let text = "[toolchain]\nchannel = \"1.75.0\"\ncomponents = [\"rustfmt\"]\n";
    let channel = text
        .lines()
        .find_map(|l| key_value_field(l.trim(), "channel"));
    assert_eq!(channel, Some("1.75.0".to_string()));
}

#[test]
fn channel_legacy_bare_form_is_the_first_bare_line() {
    let text = "stable-x86_64-apple-darwin\n";
    assert_eq!(
        first_bare_line(text),
        Some("stable-x86_64-apple-darwin".to_string())
    );
}

#[test]
fn parsers_default_toolchain_parses_from_settings_toml() {
    let text = "default_host_triple = \"aarch64-apple-darwin\"\ndefault_toolchain = \"stable-aarch64-apple-darwin\"\nversion = \"12\"\n";
    assert_eq!(
        default_toolchain(text),
        Some("stable-aarch64-apple-darwin".to_string())
    );
}

#[test]
fn parsers_extracts_cargo_target_dir_from_a_package_json_script_string() {
    let script = "CARGO_TARGET_DIR=$HOME/.cache/cubby/recipebridge-target wasm-pack build";
    assert_eq!(
        extract_cargo_target_dir(script),
        vec!["$HOME/.cache/cubby/recipebridge-target".to_string()]
    );
}

#[test]
fn parsers_unwraps_the_shell_default_expansion_idiom() {
    let script = r#"CARGO_TARGET_DIR="${CARGO_TARGET_DIR:-$HOME/.cache/cubby/recipebridge-target}" wasm-pack build"#;
    assert_eq!(
        extract_cargo_target_dir(script),
        vec!["$HOME/.cache/cubby/recipebridge-target".to_string()]
    );
}

#[test]
fn parsers_extracts_from_a_full_package_json_scripts_block() {
    let text = r#"{
            "name": "recipebridge",
            "scripts": {
                "wasm": "CARGO_TARGET_DIR=$HOME/.cache/cubby/recipebridge-target wasm-pack build",
                "build": "tsc"
            }
        }"#;
    assert_eq!(
        cargo_target_dirs_in_package_json_scripts(text),
        vec!["$HOME/.cache/cubby/recipebridge-target".to_string()]
    );
}

#[test]
fn parsers_expands_home_variants_and_tilde() {
    let home = &path("/Users/nicky");
    let root = &path("/Users/nicky/dev/recipebridge");
    assert_eq!(
        expand_target_dir("$HOME/.cache/x", home, root),
        path("/Users/nicky/.cache/x")
    );
    assert_eq!(
        expand_target_dir("${HOME}/.cache/x", home, root),
        path("/Users/nicky/.cache/x")
    );
    assert_eq!(
        expand_target_dir("~/.cache/x", home, root),
        path("/Users/nicky/.cache/x")
    );
}

#[test]
fn parsers_relative_target_dir_resolves_against_the_project_root() {
    let home = &path("/Users/nicky");
    let root = &path("/Users/nicky/dev/recipebridge");
    assert_eq!(
        expand_target_dir("build/target", home, root),
        path("/Users/nicky/dev/recipebridge/build/target")
    );
}

#[test]
fn parsers_extracts_a_quoted_occurrence_too() {
    let text = r#"export CARGO_TARGET_DIR="/tmp/target" && cargo build"#;
    assert_eq!(
        extract_cargo_target_dir(text),
        vec!["/tmp/target".to_string()]
    );
}

#[test]
fn parsers_module_path_escaping_matches_gos_own_scheme() {
    assert_eq!(
        escape_module_path("github.com/BurntSushi/toml"),
        "github.com/!burnt!sushi/toml"
    );
    assert_eq!(escape_module_path("golang.org/x/text"), "golang.org/x/text");
}

#[test]
fn go_sum_dedupes_the_go_mod_suffixed_line() {
    let text = "\
github.com/BurntSushi/toml v1.2.1 h1:9F2/+DoOYIOksmaJ4dTKZ+g0k
github.com/BurntSushi/toml v1.2.1/go.mod h1:CxXYINrC8qIiEnFrOxCa9jNhW0nEDGGC
golang.org/x/text v0.14.0 h1:ScX5w1eTa3QqT8oi6+ziP7dTV1S2+ARsyilvQ
";
    let modules = go_sum(text);
    assert_eq!(modules.len(), 2);
    assert_eq!(modules[0].name, "github.com/BurntSushi/toml");
    assert_eq!(modules[0].version, "v1.2.1");
    assert_eq!(modules[1].name, "golang.org/x/text");
}

#[test]
fn parsers_parses_v2_pins() {
    let text = r#"{
            "version": 2,
            "pins": [
                { "identity": "swift-algorithms", "kind": "remoteSourceControl",
                  "location": "https://github.com/apple/swift-algorithms.git",
                  "state": { "revision": "abc", "version": "1.2.0" } }
            ]
        }"#;
    let pins = package_resolved(text);
    assert_eq!(pins.len(), 1);
    assert_eq!(pins[0].identity, "swift-algorithms");
    assert_eq!(
        pins[0].location,
        "https://github.com/apple/swift-algorithms.git"
    );
}

#[test]
fn parsers_parses_v1_pins() {
    let text = r#"{
            "object": {
                "pins": [
                    { "package": "swift-algorithms",
                      "repositoryURL": "https://github.com/apple/swift-algorithms.git",
                      "state": { "branch": null, "revision": "abc", "version": "1.2.0" } }
                ]
            },
            "version": 1
        }"#;
    let pins = package_resolved(text);
    assert_eq!(pins.len(), 1);
    assert_eq!(pins[0].identity, "swift-algorithms");
}

#[test]
fn swiftpm_repo_basename_strips_dot_git_and_trailing_slash() {
    assert_eq!(
        swiftpm_repo_basename("https://github.com/apple/swift-algorithms.git"),
        Some("swift-algorithms".to_string())
    );
    assert_eq!(
        swiftpm_repo_basename("https://github.com/apple/swift-algorithms/"),
        Some("swift-algorithms".to_string())
    );
}

#[test]
fn swiftpm_repo_basename_handles_scp_style_urls() {
    assert_eq!(
        swiftpm_repo_basename("git@github.com:apple/swift-algorithms.git"),
        Some("swift-algorithms".to_string())
    );
}

#[test]
fn parsers_parses_brew_and_cask_directives_and_ignores_others() {
    let text = "tap \"homebrew/cask\"\nbrew \"ripgrep\"\ncask 'visual-studio-code'\nmas \"Xcode\", id: 497799835\n";
    let entries: Vec<(bool, String)> = brewfile(text)
        .into_iter()
        .map(|(kind, name)| (matches!(kind, BrewEntryKind::Formula), name))
        .collect();
    assert_eq!(
        entries,
        vec![
            (true, "ripgrep".to_string()),
            (false, "visual-studio-code".to_string()),
        ]
    );
}

#[test]
fn parsers_does_not_confuse_brewfoo_with_brew() {
    assert!(brewfile_directive("brewfoo \"x\"", "brew").is_none());
}

#[test]
fn parsers_extract_cwd_finds_the_field_anywhere_in_the_head() {
    let text = r#"{"type":"user","cwd":"/Users/nicky/dev/cubby","other":1}"#;
    assert_eq!(
        extract_cwd(text),
        Some("/Users/nicky/dev/cubby".to_string())
    );
}

#[test]
fn parsers_extract_cwd_unescapes_forward_slashes() {
    let text = r#"{"cwd":"\/Users\/nicky\/dev\/cubby"}"#;
    assert_eq!(
        extract_cwd(text),
        Some("/Users/nicky/dev/cubby".to_string())
    );
}

#[test]
fn parsers_extract_cwd_is_none_when_absent() {
    assert_eq!(extract_cwd(r#"{"type":"user"}"#), None);
}

#[test]
fn parsers_encode_claude_project_dir_maps_slashes_and_dots() {
    assert_eq!(
        encode_claude_project_dir(&path("/Users/nicky/dev/cubby")),
        "-Users-nicky-dev-cubby"
    );
    assert_eq!(
        encode_claude_project_dir(&path("/Users/nicky/dev/my.app")),
        "-Users-nicky-dev-my-app"
    );
}

#[test]
fn a_quoted_target_directory_runs_to_the_closing_quote() {
    assert_eq!(
        extract_cargo_target_dir(r#"CARGO_TARGET_DIR="/tmp/my target" cargo build"#),
        vec!["/tmp/my target"]
    );
    assert_eq!(
        extract_cargo_target_dir("CARGO_TARGET_DIR='/tmp/a;b' x; CARGO_TARGET_DIR=\"$HOME\"/t y"),
        vec!["/tmp/a;b", "$HOME/t"]
    );
    assert_eq!(extract_cargo_target_dir("sh -c 'CARGO_TARGET_DIR=/tmp/x'"), vec!["/tmp/x"]);
    assert_eq!(extract_cargo_target_dir("CARGO_TARGET_DIR=\"/tmp/x cargo"), vec!["/tmp/x"]);
}
