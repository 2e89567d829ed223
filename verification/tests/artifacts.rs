use macaudit::attribution::projects::resolvers::artifacts::{
    cargo_target_dirs_in_package_json_scripts, extract_cargo_target_dir,
};
use macaudit::attribution::projects::resolvers::parsers::expand_target_dir;
use macaudit::fspath::FilePath;

fn path(text: &str) -> FilePath {
    FilePath::from_text(text)
}

#[test]
fn artifacts_extracts_cargo_target_dir_from_a_package_json_script_string() {
    let script = "CARGO_TARGET_DIR=$HOME/.cache/cubby/recipebridge-target wasm-pack build";
    assert_eq!(
        extract_cargo_target_dir(script),
        vec!["$HOME/.cache/cubby/recipebridge-target".to_string()]
    );
}

#[test]
fn artifacts_unwraps_the_shell_default_expansion_idiom() {
    let script = r#"CARGO_TARGET_DIR="${CARGO_TARGET_DIR:-$HOME/.cache/cubby/recipebridge-target}" wasm-pack build"#;
    assert_eq!(
        extract_cargo_target_dir(script),
        vec!["$HOME/.cache/cubby/recipebridge-target".to_string()]
    );
}

#[test]
fn artifacts_extracts_from_a_full_package_json_scripts_block() {
    let text = r#"{
            "name": "recipebridge",
            "scripts": {
                "wasm": "CARGO_TARGET_DIR=$HOME/.cache/cubby/recipebridge-target wasm-pack build",
                "build": "tsc"
            }
        }"#;
    assert_eq!(
        cargo_target_dirs_in_package_json_scripts(text),
        vec!["$HOME/.cache/cubby/recipebridge-target".to_string()]
    );
}

#[test]
fn artifacts_expands_home_variants_and_tilde() {
    let home = &path("/Users/nicky");
    let root = &path("/Users/nicky/dev/recipebridge");
    assert_eq!(
        expand_target_dir("$HOME/.cache/x", home, root),
        path("/Users/nicky/.cache/x")
    );
    assert_eq!(
        expand_target_dir("${HOME}/.cache/x", home, root),
        path("/Users/nicky/.cache/x")
    );
    assert_eq!(
        expand_target_dir("~/.cache/x", home, root),
        path("/Users/nicky/.cache/x")
    );
}

#[test]
fn artifacts_relative_target_dir_resolves_against_the_project_root() {
    let home = &path("/Users/nicky");
    let root = &path("/Users/nicky/dev/recipebridge");
    assert_eq!(
        expand_target_dir("build/target", home, root),
        path("/Users/nicky/dev/recipebridge/build/target")
    );
}

#[test]
fn artifacts_extracts_a_quoted_occurrence_too() {
    let text = r#"export CARGO_TARGET_DIR="/tmp/target" && cargo build"#;
    assert_eq!(
        extract_cargo_target_dir(text),
        vec!["/tmp/target".to_string()]
    );
}
