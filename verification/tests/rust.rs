use macaudit::attribution::projects::resolvers::rust::{
    git_repo_basename, parse_cargo_lock, parse_default_toolchain, parse_toolchain_channel,
};
use macaudit::fspath::FilePath;

fn path(text: &str) -> FilePath {
    FilePath::from_text(text)
}

#[test]
fn rust_parses_a_lockfile_with_a_registry_and_a_git_source() {
    let text = r#"
# This file is automatically @generated by Cargo.
version = 3

[[package]]
name = "serde"
version = "1.0.210"
source = "registry+https://github.com/rust-lang/crates.io-index"
checksum = "abc123"

[[package]]
name = "cubby-core"
version = "0.1.0"
source = "git+https://github.com/nickysemenza/cubby-core.git?branch=main#deadbeef"

[[package]]
name = "cubby-ffi"
version = "0.1.0"
"#;
    let packages = parse_cargo_lock(text);
    assert_eq!(packages.len(), 3);
    assert_eq!(packages[0].name, "serde");
    assert_eq!(packages[0].version, "1.0.210");
    assert_eq!(
        packages[0].source.as_deref(),
        Some("registry+https://github.com/rust-lang/crates.io-index")
    );
    assert_eq!(packages[1].name, "cubby-core");
    assert_eq!(
        packages[1].source.as_deref(),
        Some("git+https://github.com/nickysemenza/cubby-core.git?branch=main#deadbeef")
    );
    // A local/workspace member has no `source` line at all.
    assert_eq!(packages[2].name, "cubby-ffi");
    assert_eq!(packages[2].source, None);
}

#[test]
fn git_repo_basename_strips_the_dot_git_suffix_and_query() {
    assert_eq!(
        git_repo_basename(
            "git+https://github.com/nickysemenza/cubby-core.git?branch=main#deadbeef"
        ),
        Some("cubby-core".to_string())
    );
    assert_eq!(
        git_repo_basename("git+https://github.com/org/repo#deadbeef"),
        Some("repo".to_string())
    );
}

#[test]
fn toolchain_channel_parses_the_toml_form() {
    let text = "[toolchain]\nchannel = \"1.75.0\"\ncomponents = [\"rustfmt\"]\n";
    assert_eq!(parse_toolchain_channel(text), Some("1.75.0".to_string()));
}

#[test]
fn toolchain_channel_parses_the_legacy_bare_form() {
    let text = "stable-x86_64-apple-darwin\n";
    assert_eq!(
        parse_toolchain_channel(text),
        Some("stable-x86_64-apple-darwin".to_string())
    );
}

#[test]
fn rust_default_toolchain_parses_from_settings_toml() {
    let text = "default_host_triple = \"aarch64-apple-darwin\"\ndefault_toolchain = \"stable-aarch64-apple-darwin\"\nversion = \"12\"\n";
    assert_eq!(
        parse_default_toolchain(text),
        Some("stable-aarch64-apple-darwin".to_string())
    );
}
