use macaudit::attribution::apps::candidates::Candidate;
use macaudit::attribution::apps::entitlements::parse_entitlements;
use macaudit::attribution::apps::linkers::{
    formula_sharing_claims, normalise, parse_lsof_pn, parse_ps_pid_comm, resolve_candidate,
    unattributed_claim,
};
use macaudit::attribution::apps::owners::{AppOwner, FormulaOwner, Owners, ToolOwner};
use macaudit::attribution::model::{
    AgentNames, EntryKind, EvidenceTier, Owner, OwnerKind, UNATTRIBUTED_OWNER,
};
use macaudit::fspath::FilePath;
use macaudit::pathmap::PathMap;

const AGENT: AgentNames = AgentNames {
    cli_cache_id: "clyde-cli-cache",
    sessions_id: "clyde-sessions",
    title: "Clyde",
    home_dir: ".clyde",
    sessions_root: "~/.clyde/projects",
    state_pattern: "~/.clyde/*",
    session_evidence: "Clyde session cwd",
    sessions_label: "Clyde sessions",
    cli_cache_label: "Clyde CLI cache",
    state_evidence: "Clyde state",
    cli_cache: "clyde-cli-nodejs",
    tool_owner: "tool:clyde",
    tool_reason: "the cache dir name doesn't match the tool name",
};

fn path(text: &str) -> FilePath {
    FilePath::from_text(text)
}

const SAMPLE: &str = r#"<?xml version="1.0" encoding="UTF-8"?>
<!DOCTYPE plist PUBLIC "-//Apple//DTD PLIST 1.0//EN" "http://www.apple.com/DTDs/PropertyList-1.0.dtd">
<plist version="1.0">
<dict>
    <key>com.apple.security.app-sandbox</key>
    <true/>
    <key>com.apple.security.application-groups</key>
    <array>
        <string>group.io.robbie.homeassistant</string>
    </array>
</dict>
</plist>"#;

#[test]
fn parses_app_groups() {
    let groups = parse_entitlements(SAMPLE.as_bytes()).unwrap();
    assert_eq!(groups, vec!["group.io.robbie.homeassistant".to_string()]);
}

#[test]
fn missing_key_defaults_to_empty() {
    let xml = r#"<?xml version="1.0" encoding="UTF-8"?>
<!DOCTYPE plist PUBLIC "-//Apple//DTD PLIST 1.0//EN" "http://www.apple.com/DTDs/PropertyList-1.0.dtd">
<plist version="1.0">
<dict>
    <key>com.apple.application-identifier</key>
    <string>ABCDE12345.com.example.app</string>
</dict>
</plist>"#;
    let groups = parse_entitlements(xml.as_bytes()).unwrap();
    assert!(groups.is_empty());
}

#[test]
fn garbage_input_is_none() {
    assert_eq!(parse_entitlements(b"not a plist"), None);
}

#[test]
fn a_list_with_something_else_than_texts_is_none() {
    let xml = r#"<?xml version="1.0" encoding="UTF-8"?>
<plist version="1.0">
<dict>
    <key>com.apple.security.application-groups</key>
    <array><string>a</string><integer>1</integer></array>
</dict>
</plist>"#;
    assert_eq!(parse_entitlements(xml.as_bytes()), None);
}

fn owner(key: &str, kind: OwnerKind, name: &str, at: Option<&str>) -> Owner {
    Owner { key: key.to_string(), kind, name: name.to_string(), path: at.map(path) }
}

fn app_owner(key: &str, at: &str) -> AppOwner {
    AppOwner {
        owner: owner(key, OwnerKind::App, key, Some(at)),
        aliases: Vec::new(),
        cask_names: Vec::new(),
        bundle_name: None,
        display_name: None,
        executable: None,
    }
}

fn candidate(name: &str, kind: EntryKind, vendor: Option<&str>) -> Candidate {
    Candidate {
        path: path(&format!("/Users/dev/Library/x/{name}")),
        name: name.to_string(),
        parent_kind: kind,
        vendor: vendor.map(str::to_string),
        is_file: false,
    }
}

fn owners_with(apps: Vec<AppOwner>) -> Owners {
    Owners { apps, formulae: Vec::new(), tools: Vec::new(), homebrew: None, agent: AGENT }
}

fn resolved(owners: &Owners, candidate: &Candidate) -> (Vec<String>, EvidenceTier) {
    let (hits, tier) = resolve_candidate(owners, &PathMap::new(), &Vec::new(), candidate);
    (hits.into_iter().map(|h| h.key).collect(), tier)
}

#[test]
fn app_named_after_the_candidate_beats_a_helper_with_the_same_bundle_name() {
    let app = app_owner("com.example.clydefordesktop", "/Applications/Clyde.app");
    let mut helper = app_owner(
        "com.example.clyde-url-handler",
        "/Users/dev/Applications/Clyde URL Handler.app",
    );
    helper.bundle_name = Some("Clyde".to_string());
    let owners = owners_with(vec![app, helper]);
    let cand = candidate("Clyde", EntryKind::AppSupport, None);
    let (keys, tier) = resolved(&owners, &cand);
    assert_eq!(tier, EvidenceTier::NameMatch);
    assert_eq!(keys, vec!["com.example.clydefordesktop"]);
}

#[test]
fn unrelated_bundle_id_last_component_does_not_match() {
    let owners = owners_with(vec![app_owner("com.openai.codex", "/Applications/ChatGPT.app")]);
    let mut cand = candidate(".codex", EntryKind::DotDir, None);
    cand.path = path("/Users/dev/.codex");
    assert!(resolved(&owners, &cand).0.is_empty());
}

#[test]
fn app_and_cli_tool_sharing_a_name_split_by_location() {
    let mut owners =
        owners_with(vec![app_owner("com.example.clydefordesktop", "/Applications/Clyde.app")]);
    owners.tools.push(ToolOwner {
        owner: owner("tool:clyde", OwnerKind::Tool, "clyde", None),
        extra_paths: Vec::new(),
    });
    let lib = candidate("Clyde", EntryKind::AppSupport, None);
    assert_eq!(resolved(&owners, &lib).0, vec!["com.example.clydefordesktop"]);

    let mut dot = candidate(".clyde", EntryKind::DotDir, None);
    dot.path = path("/Users/dev/.clyde");
    dot.name = "clyde".to_string();
    assert_eq!(resolved(&owners, &dot).0, vec!["tool:clyde"]);
}

#[test]
fn depth2_vendor_name_matches_by_vendor_and_bundle_last_component() {
    let owners =
        owners_with(vec![app_owner("com.google.Chrome", "/Applications/Google Chrome.app")]);
    let cand = candidate("Chrome", EntryKind::AppSupport, Some("Google"));
    let (keys, tier) = resolved(&owners, &cand);
    assert_eq!(tier, EvidenceTier::NameMatch);
    assert_eq!(keys, vec!["com.google.Chrome"]);
}

#[test]
fn depth2_wrong_vendor_does_not_match() {
    let owners =
        owners_with(vec![app_owner("com.google.Chrome", "/Applications/Google Chrome.app")]);
    let cand = candidate("Chrome", EntryKind::AppSupport, Some("Microsoft"));
    assert!(resolved(&owners, &cand).0.is_empty());
}

#[test]
fn bundle_name_matches_code_to_vscode() {
    let mut owner = app_owner("com.microsoft.VSCode", "/Applications/Visual Studio Code.app");
    owner.bundle_name = Some("Code".to_string());
    let owners = owners_with(vec![owner]);
    let cand = candidate("Code", EntryKind::AppSupport, None);
    let (keys, tier) = resolved(&owners, &cand);
    assert_eq!(tier, EvidenceTier::NameMatch);
    assert_eq!(keys[0], "com.microsoft.VSCode");
}

#[test]
fn alias_from_a_nested_bundle_id_matches_exactly() {
    let mut owner = app_owner("com.openai.chatgpt", "/Applications/ChatGPT.app");
    owner.aliases.push("com.openai.codex".to_string());
    let owners = owners_with(vec![owner]);
    let cand = candidate("com.openai.codex", EntryKind::Container, None);
    let (keys, tier) = resolved(&owners, &cand);
    assert_eq!(tier, EvidenceTier::Exact);
    assert_eq!(keys[0], "com.openai.chatgpt");
}

#[test]
fn entitlement_group_matches_exactly() {
    let owners =
        owners_with(vec![app_owner("io.robbie.homeassistant", "/Applications/Home Assistant.app")]);
    let mut groups: PathMap<Vec<String>> = PathMap::new();
    groups.set(
        path("/Applications/Home Assistant.app"),
        vec!["group.io.robbie.homeassistant".to_string()],
    );
    let cand = candidate("group.io.robbie.homeassistant", EntryKind::GroupContainer, None);
    let (hits, tier) = resolve_candidate(&owners, &groups, &Vec::new(), &cand);
    assert_eq!(tier, EvidenceTier::Exact);
    assert_eq!(hits[0].key, "io.robbie.homeassistant");
}

#[test]
fn group_heuristic_matches_team_prefixed_group_without_entitlements() {
    let owners =
        owners_with(vec![app_owner("io.robbie.homeassistant", "/Applications/Home Assistant.app")]);
    let cand = candidate(
        "ABCDE12345.group.io.robbie.homeassistant",
        EntryKind::GroupContainer,
        None,
    );
    let (keys, tier) = resolved(&owners, &cand);
    assert_eq!(tier, EvidenceTier::Exact);
    assert_eq!(keys[0], "io.robbie.homeassistant");
}

#[test]
fn docker_desktop_falls_through_to_curated() {
    let owners = owners_with(vec![app_owner("com.docker.docker", "/Applications/Docker.app")]);
    let cand = candidate("Docker Desktop", EntryKind::AppSupport, None);
    let (keys, tier) = resolved(&owners, &cand);
    assert_eq!(tier, EvidenceTier::Curated);
    assert_eq!(keys[0], "com.docker.docker");
}

#[test]
fn curated_owner_row_is_skipped_when_the_owner_does_not_exist() {
    let owners = owners_with(Vec::new());
    let cand = candidate("Docker Desktop", EntryKind::AppSupport, None);
    assert!(resolved(&owners, &cand).0.is_empty());
}

#[test]
fn vendor_prefix_curated_row_shares_across_every_matching_app() {
    let owners = owners_with(vec![
        app_owner("com.adobe.Photoshop", "/Applications/Adobe Photoshop.app"),
        app_owner("com.adobe.Illustrator", "/Applications/Adobe Illustrator.app"),
        app_owner("com.other.App", "/Applications/Other.app"),
    ]);
    let cand = candidate("Adobe", EntryKind::AppSupport, None);
    let (mut keys, tier) = resolved(&owners, &cand);
    assert_eq!(tier, EvidenceTier::Curated);
    keys.sort();
    assert_eq!(keys, vec!["com.adobe.Illustrator", "com.adobe.Photoshop"]);
}

#[test]
fn unmatched_candidate_is_unattributed_with_a_name_reason() {
    let owners = owners_with(Vec::new());
    let cand = candidate("SomeRandomVendor", EntryKind::AppSupport, None);
    assert!(resolved(&owners, &cand).0.is_empty());
    let claim = unattributed_claim(&cand);
    assert_eq!(claim.owner, UNATTRIBUTED_OWNER);
    assert_eq!(claim.evidence, "no owner matched `SomeRandomVendor`");
}

#[test]
fn unmatched_apple_system_cache_gets_a_system_component_reason() {
    let cand = candidate("com.apple.Something", EntryKind::Cache, None);
    let claim = unattributed_claim(&cand);
    assert_eq!(claim.evidence, "macOS system component");
}

#[test]
fn formula_sharing_claims_split_a_dependency_among_its_dependents() {
    let leaf = FormulaOwner {
        owner: owner(
            "formula:libidn2",
            OwnerKind::Formula,
            "libidn2",
            Some("/opt/homebrew/Cellar/libidn2"),
        ),
        bin_names: vec!["libidn2".to_string()],
        dependents: vec!["wget".to_string()],
    };
    let dependent = FormulaOwner {
        owner: owner(
            "formula:wget",
            OwnerKind::Formula,
            "wget",
            Some("/opt/homebrew/Cellar/wget"),
        ),
        bin_names: vec!["wget".to_string()],
        dependents: Vec::new(),
    };
    let owners = Owners {
        apps: Vec::new(),
        formulae: vec![leaf, dependent],
        tools: Vec::new(),
        homebrew: None,
        agent: AGENT,
    };
    let claims = formula_sharing_claims(&owners);
    assert_eq!(claims.len(), 1);
    assert_eq!(claims[0].path, path("/opt/homebrew/Cellar/libidn2"));
    assert_eq!(claims[0].owner, "formula:wget");
}

#[test]
fn parse_lsof_pn_associates_paths_with_the_preceding_pid() {
    let out = "p123\nn/Users/dev/Library/Caches/Foo\nn/tmp/x\np456\nn/Users/dev/Library/Logs/Bar";
    assert_eq!(
        parse_lsof_pn(out),
        vec![
            (123, path("/Users/dev/Library/Caches/Foo")),
            (123, path("/tmp/x")),
            (456, path("/Users/dev/Library/Logs/Bar")),
        ]
    );
}

#[test]
fn parse_ps_pid_comm_skips_the_header_and_splits_on_the_first_gap() {
    let out = "  PID COMM\n  123 /Applications/Google Chrome.app/Contents/MacOS/Google Chrome\n 456 /bin/zsh";
    assert_eq!(
        parse_ps_pid_comm(out),
        vec![
            (
                123,
                "/Applications/Google Chrome.app/Contents/MacOS/Google Chrome".to_string()
            ),
            (456, "/bin/zsh".to_string()),
        ]
    );
}

#[test]
fn normalise_ignores_case_spaces_and_punctuation() {
    assert_eq!(normalise("Google Chrome"), normalise("google-chrome"));
    assert_eq!(normalise("com.google.Chrome"), "comgooglechrome");
    assert_eq!(normalise("ÉCOLE 2"), "école2");
}

#[test]
fn the_agents_cache_belongs_to_its_tool() {
    let mut owners = owners_with(Vec::new());
    owners.tools.push(ToolOwner {
        owner: owner("tool:clyde", OwnerKind::Tool, "clyde", None),
        extra_paths: Vec::new(),
    });
    let cand = candidate("clyde-cli-nodejs", EntryKind::Cache, None);
    let (keys, tier) = resolved(&owners, &cand);
    assert_eq!(tier, EvidenceTier::Curated);
    assert_eq!(keys, vec!["tool:clyde"]);
}
