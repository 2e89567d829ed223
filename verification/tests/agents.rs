use macaudit::attribution::projects::resolvers::agents::codex_session_label;
use macaudit::attribution::projects::resolvers::parsers::{encode_claude_project_dir, extract_cwd};
use macaudit::fspath::FilePath;

fn path(text: &str) -> FilePath {
    FilePath::from_text(text)
}

#[test]
fn agents_extract_cwd_finds_the_field_anywhere_in_the_head() {
    let text = r#"{"type":"user","cwd":"/Users/nicky/dev/cubby","other":1}"#;
    assert_eq!(
        extract_cwd(text),
        Some("/Users/nicky/dev/cubby".to_string())
    );
}

#[test]
fn agents_extract_cwd_unescapes_forward_slashes() {
    let text = r#"{"cwd":"\/Users\/nicky\/dev\/cubby"}"#;
    assert_eq!(
        extract_cwd(text),
        Some("/Users/nicky/dev/cubby".to_string())
    );
}

#[test]
fn agents_extract_cwd_is_none_when_absent() {
    assert_eq!(extract_cwd(r#"{"type":"user"}"#), None);
}

#[test]
fn extract_cwd_is_none_on_an_unterminated_string() {
    assert_eq!(extract_cwd(r#"{"cwd":"/Users/nicky"#), None);
}

#[test]
fn agents_encode_claude_project_dir_maps_slashes_and_dots() {
    assert_eq!(
        encode_claude_project_dir(&path("/Users/nicky/dev/cubby")),
        "-Users-nicky-dev-cubby"
    );
    assert_eq!(
        encode_claude_project_dir(&path("/Users/nicky/dev/my.app")),
        "-Users-nicky-dev-my-app"
    );
}

#[test]
fn codex_session_label_extracts_the_date_prefix() {
    assert_eq!(
        codex_session_label(&path("/x/rollout-2024-05-01T12-34-56-abc123.jsonl")),
        "Codex session 2024-05-01"
    );
}
