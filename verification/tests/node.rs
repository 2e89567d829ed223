use macaudit::attribution::projects::resolvers::node::newest_matching_version_dir;
use macaudit::attribution::projects::resolvers::parsers::{decode_base64, hex_encode, normalise_node_pin, package_lock, yarn_berry};
use macaudit::fspath::FilePath;

fn path(text: &str) -> FilePath {
    FilePath::from_text(text)
}

#[test]
fn node_parses_package_lock_v3_packages_entries() {
    let text = r#"{
            "lockfileVersion": 3,
            "packages": {
                "": { "name": "root", "version": "1.0.0" },
                "node_modules/lodash": { "version": "4.17.21" },
                "node_modules/@scope/thing": { "version": "2.0.0" },
                "node_modules/foo/node_modules/lodash": { "version": "4.17.20" }
            }
        }"#;
    let mut got: Vec<(String, String)> = package_lock(text)
        .into_iter()
        .map(|p| (p.name, p.version))
        .collect();
    got.sort();
    assert_eq!(
        got,
        vec![
            ("@scope/thing".to_string(), "2.0.0".to_string()),
            ("lodash".to_string(), "4.17.20".to_string()),
            ("lodash".to_string(), "4.17.21".to_string()),
        ]
    );
}

#[test]
fn node_parses_yarn_berry_resolution_lines() {
    let text = r#"
"lodash@npm:^4.17.21, lodash@npm:^4.17.4":
  version: 4.17.21
  resolution: "lodash@npm:4.17.21"
  checksum: 10c0/abcd
  languageName: node
  linkType: hard

"@babel/core@npm:^7.20.0":
  version: 7.20.0
  resolution: "@babel/core@npm:7.20.0"
  languageName: node
  linkType: hard

"local-pkg@workspace:packages/local-pkg":
  version: 0.0.0-use.local
  resolution: "local-pkg@workspace:packages/local-pkg"
  languageName: unknown
  linkType: soft
"#;
    let mut got = yarn_berry(text);
    got.sort();
    assert_eq!(
        got,
        vec![
            ("@babel/core".to_string(), "7.20.0".to_string()),
            ("lodash".to_string(), "4.17.21".to_string()),
        ]
    );
}

#[test]
fn node_normalise_node_pin_handles_major_only_and_dotted_forms() {
    assert_eq!(normalise_node_pin("v24"), Some("v24".to_string()));
    assert_eq!(normalise_node_pin("24.1"), Some("v24.1".to_string()));
    assert_eq!(normalise_node_pin("20.11.1"), Some("v20.11.1".to_string()));
}

#[test]
fn node_normalise_node_pin_rejects_non_numeric_refs() {
    assert_eq!(normalise_node_pin("lts/*"), None);
    assert_eq!(normalise_node_pin("lts/iron"), None);
    assert_eq!(normalise_node_pin("system"), None);
    assert_eq!(normalise_node_pin(""), None);
}

#[test]
fn newest_matching_version_dir_picks_the_newest_within_the_pin() {
    let candidates = vec![
        "v24.2.0".to_string(),
        "v24.15.0".to_string(),
        "v20.1.0".to_string(),
        "v240.1.0".to_string(),
    ];
    assert_eq!(
        newest_matching_version_dir("v24", &candidates),
        Some("v24.15.0".to_string())
    );
}

#[test]
fn newest_matching_version_dir_respects_a_minor_pin() {
    let candidates = vec![
        "v24.1.5".to_string(),
        "v24.1.9".to_string(),
        "v24.10.0".to_string(),
    ];
    assert_eq!(
        newest_matching_version_dir("v24.1", &candidates),
        Some("v24.1.9".to_string())
    );
}

#[test]
fn node_base64_round_trips_a_known_npm_integrity_value() {
    assert_eq!(decode_base64("aGk="), Some(vec![0x68, 0x69]));
    assert_eq!(hex_encode(&[0x68, 0x69]), "6869");
}
