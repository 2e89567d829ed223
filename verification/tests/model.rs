use macaudit::attribution::lsof::{cwd_by_pid, open_under, parse, OpenFile};
use macaudit::attribution::model::{AgentNames, Axis, Claim, EntryKind, EvidenceTier, ResolveEnv};
use macaudit::attribution::{deps_of, APP_STORAGE_DEPS, PROJECT_DEPS};
use macaudit::disk::{Disk, Want};
use macaudit::fspath::FilePath;
use macaudit::scan::ScannerId;

const AGENT: AgentNames = AgentNames {
    cli_cache_id: "clyde-cli-cache",
    sessions_id: "clyde-sessions",
    title: "Clyde",
    home_dir: ".clyde",
    sessions_root: "~/.clyde/projects",
    state_pattern: "~/.clyde/*",
    session_evidence: "Clyde session cwd",
    sessions_label: "Clyde sessions",
    cli_cache_label: "Clyde CLI cache",
    state_evidence: "Clyde state",
    cli_cache: "clyde-cli-nodejs",
    tool_owner: "tool:clyde",
    tool_reason: "the cache dir name doesn't match the tool name",
};

fn path(text: &str) -> FilePath {
    FilePath::from_text(text)
}

const FIXTURE: &str = "p1234\ncnode\nfcwd\nn/Users/dev/cubby\np456\nczsh\nfcwd\nn/Users/dev/other\np789\ncChrome\nf12\nn/Users/dev/Library/Caches/Foo\nf13\nn/tmp/x\n";

fn open_file(pid: u32, command: &str, fd: &str, at: &str) -> OpenFile {
    OpenFile { pid, command: command.to_string(), fd: fd.to_string(), path: path(at) }
}

#[test]
fn parses_cwd_and_regular_fds_for_every_process() {
    assert_eq!(
        parse(FIXTURE),
        vec![
            open_file(1234, "node", "cwd", "/Users/dev/cubby"),
            open_file(456, "zsh", "cwd", "/Users/dev/other"),
            open_file(789, "Chrome", "12", "/Users/dev/Library/Caches/Foo"),
            open_file(789, "Chrome", "13", "/tmp/x"),
        ]
    );
}

#[test]
fn cwd_by_pid_only_keeps_cwd_entries() {
    let files = parse(FIXTURE);
    let map = cwd_by_pid(&files);
    assert_eq!(map.get(&1234), Some(&path("/Users/dev/cubby")));
    assert_eq!(map.get(&456), Some(&path("/Users/dev/other")));
    assert_eq!(map.get(&789), None);
}

#[test]
fn open_under_filters_by_path_prefix() {
    let files = parse(FIXTURE);
    let under = open_under(&files, &path("/Users/dev/Library"));
    assert_eq!(under.len(), 1);
    assert_eq!(under[0].pid, 789);
}

#[test]
fn ignores_an_n_line_with_no_preceding_pid_command_or_fd() {
    assert_eq!(parse("n/Users/dev/cubby\n"), Vec::new());
}

#[test]
fn empty_output_yields_no_files() {
    assert_eq!(parse(""), Vec::new());
}

#[test]
fn deps_of_only_the_two_attribution_scanners_are_non_empty() {
    for id in ScannerId::all() {
        match id {
            ScannerId::Projects => assert_eq!(deps_of(id), PROJECT_DEPS),
            ScannerId::AppStorage => assert_eq!(deps_of(id), APP_STORAGE_DEPS),
            _ => assert!(deps_of(id).is_empty(), "{id:?} should have no deps"),
        }
    }
}

#[test]
fn axis_slug_round_trips_through_parse() {
    for axis in Axis::all() {
        assert_eq!(Axis::parse(axis.slug()), Some(axis));
    }
    assert_eq!(Axis::parse("nope"), None);
}

#[test]
fn evidence_tier_orders_strongest_first() {
    assert!(EvidenceTier::Exact < EvidenceTier::Curated);
    let tiers = [EvidenceTier::Curated, EvidenceTier::Exact, EvidenceTier::Observed];
    assert_eq!(tiers.iter().min(), Some(&EvidenceTier::Exact));
}

#[test]
fn claim_builder_sets_optional_fields() {
    let claim = Claim::new(
        path("/Users/x/proj"),
        "proj-owner",
        EntryKind::WorkingTree,
        EvidenceTier::Exact,
        "repo root",
    )
    .label("Working tree")
    .clone_of_store()
    .stale();
    assert_eq!(claim.label, "Working tree");
    assert!(claim.clone_of_store);
    assert!(claim.stale);
    assert!(!claim.baseline);
    assert_eq!(claim.ecosystem, None);
}

#[test]
fn read_head_is_memoised_and_missing_file_is_none() {
    let env = ResolveEnv::new(
        path("/tmp/macaudit-attribution-model-test-home"),
        Vec::new(),
        Vec::new(),
        AGENT,
    );
    let mut disk = Disk::new();
    let missing = path("/definitely/not/a/real/path");
    assert_eq!(env.read_head(&mut disk, &missing, 64), None);
    assert!(matches!(&disk.wanted[0], Want::Head(p, 64) if *p == missing));
    look_up(&mut disk, "/definitely/elsewhere", "");
    assert_eq!(env.read_head(&mut disk, &missing, 64), None);
    assert!(disk.wanted.is_empty());

    let file = path("/tmp/macaudit-attribution-model-test.txt");
    assert_eq!(env.read_head(&mut disk, &file, 5), None);
    look_up(&mut disk, "/tmp/macaudit-attribution-model-test.txt", "hello world");
    assert_eq!(env.read_head(&mut disk, &file, 5), Some("hello".to_string()));
    // Memoised: rewriting the file must not change the kept answer.
    disk.wanted.push(Want::Head(file.copy(), 5));
    disk.wanted.push(Want::Head(missing.copy(), 5));
    look_up(&mut disk, "/tmp/macaudit-attribution-model-test.txt", "goodbye");
    assert_eq!(env.read_head(&mut disk, &file, 5), Some("hello".to_string()));
    assert_eq!(env.read_head(&mut disk, &file, 3), Some("hello".to_string()));
    assert_eq!(env.read_head(&mut disk, &file, 64), Some("hello".to_string()));
    assert_eq!(env.read_head(&mut disk, &missing, 5), None);
    assert!(disk.wanted.is_empty());
}

/// Answers every question for a head from a disk on which only `at` can be read.
fn look_up(disk: &mut Disk, at: &str, content: &str) {
    for want in std::mem::take(&mut disk.wanted) {
        if let Want::Head(p, cap) = want {
            let head = (p == path(at)).then(|| content.chars().take(cap).collect());
            disk.set_head(p, head);
        }
    }
}
