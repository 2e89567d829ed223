use macaudit::attribution::projects::discovery::{checkout_from_gitdir, is_package_dir};
use macaudit::attribution::projects::names::{
    extract_pbxproj_field, extract_swift_package_name, parse_pnpm_workspace_packages,
};
use macaudit::attribution::projects::{under_project, Project, ProjectIndex};
use macaudit::fspath::FilePath;

fn path(text: &str) -> FilePath {
    FilePath::from_text(text)
}

fn project(root: &str, worktrees: &[&str]) -> Project {
    Project {
        root: path(root),
        name: root.rsplit('/').next().unwrap_or(root).to_string(),
        worktrees: worktrees.iter().map(|w| path(w)).collect(),
        names: Vec::new(),
        bundle_ids: Vec::new(),
        is_git: true,
    }
}

#[test]
fn checkout_from_gitdir_handles_an_absolute_path() {
    let admin = path("/Users/dev/proj/.git/worktrees/feature-x");
    let got = checkout_from_gitdir("/Users/dev/proj-worktrees/feature-x/.git\n", &admin);
    assert_eq!(got, Some(path("/Users/dev/proj-worktrees/feature-x")));
}

#[test]
fn checkout_from_gitdir_resolves_a_relative_path_against_the_admin_dir() {
    let admin = path("/Users/dev/proj/.git/worktrees/feature-x");
    let got = checkout_from_gitdir("../../../../proj-worktrees/feature-x/.git", &admin);
    assert_eq!(
        got,
        Some(path(
            "/Users/dev/proj/.git/worktrees/feature-x/../../../../proj-worktrees/feature-x"
        ))
    );
}

#[test]
fn checkout_from_gitdir_rejects_empty_content() {
    assert_eq!(checkout_from_gitdir("\n", &path("/x")), None);
}

#[test]
fn is_package_dir_matches_known_extensions_case_insensitively() {
    assert!(is_package_dir("Foo.APP"));
    assert!(is_package_dir("Bar.xcodeproj"));
    assert!(!is_package_dir("not-a-package"));
    assert!(!is_package_dir("weird."));
}

#[test]
fn owner_of_matches_the_longest_prefix() {
    let index = ProjectIndex::new(vec![
        project("/Users/dev/dev", &[]),
        project("/Users/dev/dev/cubby", &[]),
    ]);
    let owner = index.owner_of(&path("/Users/dev/dev/cubby/apps/api")).expect("owner found");
    assert_eq!(owner.root, path("/Users/dev/dev/cubby"));
}

#[test]
fn owner_of_folds_a_worktree_checkout_into_its_main_project() {
    let index = ProjectIndex::new(vec![project(
        "/Users/dev/dev/cubby",
        &["/Users/dev/dev/cubby-worktrees/feature-x"],
    )]);
    let owner = index
        .owner_of(&path("/Users/dev/dev/cubby-worktrees/feature-x/src/main.rs"))
        .expect("owner found");
    assert_eq!(owner.root, path("/Users/dev/dev/cubby"));
}

#[test]
fn owner_of_is_none_outside_every_project() {
    let index = ProjectIndex::new(vec![project("/Users/dev/dev/cubby", &[])]);
    assert!(index.owner_of(&path("/Users/dev/other")).is_none());
}

#[test]
fn extracts_bundle_identifier_from_a_pbxproj_snippet() {
    let snippet = r#"
            buildSettings = {
                PRODUCT_BUNDLE_IDENTIFIER = com.example.overboard;
                PRODUCT_NAME = "$(TARGET_NAME)";
            };
        "#;
    assert_eq!(
        extract_pbxproj_field(snippet, "PRODUCT_BUNDLE_IDENTIFIER"),
        vec!["com.example.overboard".to_string()]
    );
    assert!(extract_pbxproj_field(snippet, "PRODUCT_NAME").is_empty());
}

#[test]
fn extracts_a_literal_product_name() {
    let snippet = r#"PRODUCT_NAME = Overboard;"#;
    assert_eq!(
        extract_pbxproj_field(snippet, "PRODUCT_NAME"),
        vec!["Overboard".to_string()]
    );
}

#[test]
fn extracts_the_packages_own_name_from_package_swift() {
    let text = r#"
            // swift-tools-version:5.9
            let package = Package(
                name: "Overboard",
                targets: [
                    .target(name: "OverboardKit"),
                ]
            )
        "#;
    assert_eq!(extract_swift_package_name(text), Some("Overboard".to_string()));
}

#[test]
fn parses_pnpm_workspace_packages_list() {
    let text = "packages:\n  - \"apps/*\"\n  - 'tools/*'\n\nsomething-else: true\n";
    assert_eq!(
        parse_pnpm_workspace_packages(text),
        vec!["apps/*".to_string(), "tools/*".to_string()]
    );
}

fn overboard() -> Project {
    project("/Users/dev/dev/overboard", &["/Users/dev/dev/overboard-wt"])
}

#[test]
fn a_path_lies_in_a_project_in_its_root_or_in_another_checkout() {
    let p = overboard();
    assert!(under_project(&path("/Users/dev/dev/overboard/src"), &p));
    assert!(under_project(&path("/Users/dev/dev/overboard-wt/src"), &p));
    assert!(!under_project(&path("/Users/dev/dev/overboard-2"), &p));
}
